use vstd::prelude::*;
use crate::error::CompileError;
use crate::grid::Grid;
use crate::position::{Direction, Position};
use crate::text::push_char;

verus! {

/// An instruction of the language.
#[derive(Debug)]
pub enum OperatorSymbol {
    Blank,
    // data
    /// A decimal literal, kept modulo 2^32 like the target's 32-bit words.
    Number(u32),
    /// The text between two quote glyphs.
    String(String),
    // stack
    PushZero,
    PopZero,
    PopMainToControl,
    PopControlToMain,
    SwapStacks,
    // i/o
    Write,
    Read,
    // number
    Increment,
    Decrement,
    Add,
    Subtract,
    Divide,
    Multiply,
    // bitwise
    Not,
    And,
    Or,
    Xor,
    RotateLeft,
    RotateRight,
    // comparisons
    ToggleControl,
    EqualityCheck,
    LessThanCheck,
    GreaterThanCheck,
    // stack movement
    SwapTop,
    Dig,
    Bury,
    Flip,
    SwapLower,
    Over,
    Under,
    // misc
    Duplicate,
    Unduplicate,
    InverseMode,
    Halt,
    // direction changing
    Mirror1,
    Mirror2,
    EastBranch,
    WestBranch,
    SouthBranch,
    NorthBranch,
}

/// What follows an instruction.
#[derive(Clone, Copy, Debug, PartialEq, Eq, Structural)]
pub enum Directions {
    /// Step once in the direction and go on, in the same mode.
    Continue(Direction),
    /// Step once in the direction and go on, with inverse mode flipped.
    ContinueInversed(Direction),
    /// Two successors: the block ends here.
    Branch(Direction, Direction),
    /// No successor.
    Halt,
}

pub open spec fn is_digit(c: char) -> bool {
    '0' <= c <= '9'
}

pub open spec fn digit_value(c: char) -> nat {
    (c as u32 - '0' as u32) as nat
}

/// The number written by the decimal digits `s`.
pub open spec fn digits_value(s: Seq<char>) -> nat
    decreases s.len(),
{
    if s.len() == 0 {
        0
    } else {
        digits_value(s.drop_last()) * 10 + digit_value(s.last())
    }
}

/// The single-cell instruction of glyph `c`; literals, the blank and
/// unknown glyphs have none.
pub open spec fn glyph_symbol(c: char) -> Option<OperatorSymbol> {
    match c {
        ' ' => Some(OperatorSymbol::Blank),
        '(' => Some(OperatorSymbol::PushZero),
        ')' => Some(OperatorSymbol::PopZero),
        '[' => Some(OperatorSymbol::PopMainToControl),
        ']' => Some(OperatorSymbol::PopControlToMain),
        '$' => Some(OperatorSymbol::SwapStacks),
        'w' => Some(OperatorSymbol::Write),
        'r' => Some(OperatorSymbol::Read),
        '\'' => Some(OperatorSymbol::Increment),
        '`' => Some(OperatorSymbol::Decrement),
        '+' => Some(OperatorSymbol::Add),
        '-' => Some(OperatorSymbol::Subtract),
        '%' => Some(OperatorSymbol::Divide),
        '*' => Some(OperatorSymbol::Multiply),
        '~' => Some(OperatorSymbol::Not),
        '&' => Some(OperatorSymbol::And),
        '|' => Some(OperatorSymbol::Or),
        '#' => Some(OperatorSymbol::Xor),
        '{' => Some(OperatorSymbol::RotateLeft),
        '}' => Some(OperatorSymbol::RotateRight),
        '!' => Some(OperatorSymbol::ToggleControl),
        '=' => Some(OperatorSymbol::EqualityCheck),
        'l' => Some(OperatorSymbol::LessThanCheck),
        'g' => Some(OperatorSymbol::GreaterThanCheck),
        's' => Some(OperatorSymbol::SwapTop),
        'd' => Some(OperatorSymbol::Dig),
        'b' => Some(OperatorSymbol::Bury),
        'f' => Some(OperatorSymbol::Flip),
        'c' => Some(OperatorSymbol::SwapLower),
        'o' => Some(OperatorSymbol::Over),
        'u' => Some(OperatorSymbol::Under),
        ':' => Some(OperatorSymbol::Duplicate),
        ';' => Some(OperatorSymbol::Unduplicate),
        '?' => Some(OperatorSymbol::InverseMode),
        '@' => Some(OperatorSymbol::Halt),
        '\\' => Some(OperatorSymbol::Mirror1),
        '/' => Some(OperatorSymbol::Mirror2),
        '>' => Some(OperatorSymbol::EastBranch),
        '<' => Some(OperatorSymbol::WestBranch),
        'v' => Some(OperatorSymbol::SouthBranch),
        '^' => Some(OperatorSymbol::NorthBranch),
        'J' => Some(OperatorSymbol::SwapStacks),
        _ => None,
    }
}

/// How glyph `c`, entered travelling in `d`, hands on control.
pub open spec fn glyph_exit(c: char, d: Direction) -> Directions {
    match c {
        '?' => Directions::ContinueInversed(d),
        '@' => Directions::Halt,
        '\\' => Directions::Continue(
            match d {
                Direction::North => Direction::West,
                Direction::South => Direction::East,
                Direction::East => Direction::South,
                Direction::West => Direction::North,
            },
        ),
        '/' => Directions::Continue(
            match d {
                Direction::North => Direction::East,
                Direction::South => Direction::West,
                Direction::East => Direction::North,
                Direction::West => Direction::South,
            },
        ),
        '>' => match d {
            Direction::North => Directions::Continue(Direction::East),
            Direction::South => Directions::Continue(Direction::East),
            Direction::East => Directions::ContinueInversed(Direction::West),
            Direction::West => Directions::Branch(Direction::North, Direction::South),
        },
        '<' => match d {
            Direction::North => Directions::Continue(Direction::West),
            Direction::South => Directions::Continue(Direction::West),
            Direction::East => Directions::Branch(Direction::South, Direction::North),
            Direction::West => Directions::ContinueInversed(Direction::East),
        },
        'v' => match d {
            Direction::North => Directions::Branch(Direction::East, Direction::West),
            Direction::South => Directions::ContinueInversed(Direction::North),
            Direction::East => Directions::Continue(Direction::South),
            Direction::West => Directions::Continue(Direction::South),
        },
        '^' => match d {
            Direction::North => Directions::ContinueInversed(Direction::South),
            Direction::South => Directions::Branch(Direction::West, Direction::East),
            Direction::East => Directions::Continue(Direction::North),
            Direction::West => Directions::Continue(Direction::North),
        },
        'J' => Directions::Branch(Direction::South, Direction::East),
        _ => Directions::Continue(d),
    }
}

/// The instruction of a single-cell glyph, as [`glyph_symbol`] gives it.
fn symbol_of_glyph(c: char) -> (r: Option<OperatorSymbol>)
    ensures
        r == glyph_symbol(c),
{
    match c {
        ' ' => Some(OperatorSymbol::Blank),
        '(' => Some(OperatorSymbol::PushZero),
        ')' => Some(OperatorSymbol::PopZero),
        '[' => Some(OperatorSymbol::PopMainToControl),
        ']' => Some(OperatorSymbol::PopControlToMain),
        '$' => Some(OperatorSymbol::SwapStacks),
        'w' => Some(OperatorSymbol::Write),
        'r' => Some(OperatorSymbol::Read),
        '\'' => Some(OperatorSymbol::Increment),
        '`' => Some(OperatorSymbol::Decrement),
        '+' => Some(OperatorSymbol::Add),
        '-' => Some(OperatorSymbol::Subtract),
        '%' => Some(OperatorSymbol::Divide),
        '*' => Some(OperatorSymbol::Multiply),
        '~' => Some(OperatorSymbol::Not),
        '&' => Some(OperatorSymbol::And),
        '|' => Some(OperatorSymbol::Or),
        '#' => Some(OperatorSymbol::Xor),
        '{' => Some(OperatorSymbol::RotateLeft),
        '}' => Some(OperatorSymbol::RotateRight),
        '!' => Some(OperatorSymbol::ToggleControl),
        '=' => Some(OperatorSymbol::EqualityCheck),
        'l' => Some(OperatorSymbol::LessThanCheck),
        'g' => Some(OperatorSymbol::GreaterThanCheck),
        's' => Some(OperatorSymbol::SwapTop),
        'd' => Some(OperatorSymbol::Dig),
        'b' => Some(OperatorSymbol::Bury),
        'f' => Some(OperatorSymbol::Flip),
        'c' => Some(OperatorSymbol::SwapLower),
        'o' => Some(OperatorSymbol::Over),
        'u' => Some(OperatorSymbol::Under),
        ':' => Some(OperatorSymbol::Duplicate),
        ';' => Some(OperatorSymbol::Unduplicate),
        '?' => Some(OperatorSymbol::InverseMode),
        '@' => Some(OperatorSymbol::Halt),
        '\\' => Some(OperatorSymbol::Mirror1),
        '/' => Some(OperatorSymbol::Mirror2),
        '>' => Some(OperatorSymbol::EastBranch),
        '<' => Some(OperatorSymbol::WestBranch),
        'v' => Some(OperatorSymbol::SouthBranch),
        '^' => Some(OperatorSymbol::NorthBranch),
        'J' => Some(OperatorSymbol::SwapStacks),
        _ => None,
    }
}

/// The exit rule of a glyph, as [`glyph_exit`] gives it.
fn exit_of_glyph(c: char, d: Direction) -> (r: Directions)
    ensures
        r == glyph_exit(c, d),
{
    match c {
        '?' => Directions::ContinueInversed(d),
        '@' => Directions::Halt,
        '\\' => Directions::Continue(
            match d {
                Direction::North => Direction::West,
                Direction::South => Direction::East,
                Direction::East => Direction::South,
                Direction::West => Direction::North,
            },
        ),
        '/' => Directions::Continue(
            match d {
                Direction::North => Direction::East,
                Direction::South => Direction::West,
                Direction::East => Direction::North,
                Direction::West => Direction::South,
            },
        ),
        '>' => match d {
            Direction::North => Directions::Continue(Direction::East),
            Direction::South => Directions::Continue(Direction::East),
            Direction::East => Directions::ContinueInversed(Direction::West),
            Direction::West => Directions::Branch(Direction::North, Direction::South),
        },
        '<' => match d {
            Direction::North => Directions::Continue(Direction::West),
            Direction::South => Directions::Continue(Direction::West),
            Direction::East => Directions::Branch(Direction::South, Direction::North),
            Direction::West => Directions::ContinueInversed(Direction::East),
        },
        'v' => match d {
            Direction::North => Directions::Branch(Direction::East, Direction::West),
            Direction::South => Directions::ContinueInversed(Direction::North),
            Direction::East => Directions::Continue(Direction::South),
            Direction::West => Directions::Continue(Direction::South),
        },
        '^' => match d {
            Direction::North => Directions::ContinueInversed(Direction::South),
            Direction::South => Directions::Branch(Direction::West, Direction::East),
            Direction::East => Directions::Continue(Direction::North),
            Direction::West => Directions::Continue(Direction::North),
        },
        'J' => Directions::Branch(Direction::South, Direction::East),
        _ => Directions::Continue(d),
    }
}


/// `p` after `k` steps in `d`.
pub open spec fn walk(p: Position, d: Direction, k: nat) -> Position
    decreases k,
{
    if k == 0 {
        p
    } else {
        walk(p, d, (k - 1) as nat).spec_step(d)
    }
}

/// The glyph at `p`, or a blank outside the grid.
pub open spec fn glyph_at(g: &Grid, p: Position) -> char {
    match g.cell(p) {
        Some(c) => c,
        None => ' ',
    }
}

/// The `n` glyphs met from `lo` steps to `lo + n - 1` steps away from `p`.
pub open spec fn run_chars(g: &Grid, p: Position, d: Direction, lo: nat, n: nat) -> Seq<char> {
    Seq::new(n, |i: int| glyph_at(g, walk(p, d, (lo + i) as nat)))
}

/// The cells from `p` up to `k` steps away in `d` all hold digits.
pub open spec fn digit_run(g: &Grid, p: Position, d: Direction, k: nat) -> bool {
    forall|i: nat| i <= k ==> (#[trigger] g.cell(walk(p, d, i)) matches Some(c) && is_digit(c))
}

/// The cells strictly between `p` and `k` steps away in `d` hold glyphs
/// other than the quote.
pub open spec fn string_body(g: &Grid, p: Position, d: Direction, k: nat) -> bool {
    forall|i: nat| 0 < i < k ==> (#[trigger] g.cell(walk(p, d, i)) matches Some(c) && c != '"')
}

pub open spec fn word_range() -> nat {
    0x1_0000_0000
}

/// What lexing at `p`, travelling in `d`, yields (`r`), together with the
/// position `q` where the instruction ends.
#[verifier::opaque]
pub open spec fn lexed(
    g: &Grid,
    p: Position,
    d: Direction,
    r: Result<(OperatorSymbol, Directions), CompileError>,
    q: Position,
) -> bool {
    match g.cell(p) {
        None => r == Ok::<(OperatorSymbol, Directions), CompileError>((OperatorSymbol::Halt, Directions::Halt)) && q == p,
        Some(c) => if is_digit(c) {
            exists|k: nat|
                #![trigger walk(p, d, k)]
                digit_run(g, p, d, k) && match g.cell(walk(p, d, k + 1)) {
                    Some(n) => !is_digit(n) && q == walk(p, d, k) && r == Ok::<(OperatorSymbol, Directions), CompileError>((
                        OperatorSymbol::Number((digits_value(run_chars(g, p, d, 0, k + 1)) % word_range()) as u32),
                        Directions::Continue(d),
                    )),
                    None => r == Err::<(OperatorSymbol, Directions), CompileError>(CompileError::OutOfBoundsLiteral { position: p }),
                }
        } else if c == '"' {
            exists|k: nat|
                #![trigger walk(p, d, k)]
                k >= 1 && string_body(g, p, d, k) && match g.cell(walk(p, d, k)) {
                    Some(n) => n == '"' && q == walk(p, d, k) && match r {
                        Ok((OperatorSymbol::String(s), Directions::Continue(e))) =>
                            e == d && s@ == run_chars(g, p, d, 1, (k - 1) as nat),
                        _ => false,
                    },
                    None => r == Err::<(OperatorSymbol, Directions), CompileError>(CompileError::OutOfBoundsLiteral { position: p }),
                }
        } else {
            match glyph_symbol(c) {
                Some(op) => r == Ok::<(OperatorSymbol, Directions), CompileError>((op, glyph_exit(c, d))) && q == p,
                None => r == Err::<(OperatorSymbol, Directions), CompileError>(CompileError::InvalidCharacter { ch: c, position: p }),
            }
        }
    }
}

/// Cells left before the edge of a `width` by `height` grid, travelling
/// from `p` in `d`.
spec fn room(p: Position, d: Direction, width: nat, height: nat) -> int {
    match d {
        Direction::North => p.1 as int,
        Direction::South => height - p.1,
        Direction::East => width - p.0,
        Direction::West => p.0 as int,
    }
}

proof fn lemma_step_on_grid(g: &Grid, p: Position, d: Direction, width: nat)
    requires
        g.cell(p) is Some,
        g.cell(p.spec_step(d)) is Some,
        forall|i: int| 0 <= i < g.rows().len() ==> #[trigger] g.rows()[i].len() == width,
        g.rows().len() <= usize::MAX,
        width <= usize::MAX,
    ensures
        0 <= room(p.spec_step(d), d, width, g.rows().len()) < room(p, d, width, g.rows().len()),
{
    assert(g.rows()[p.1 as int].len() == width);
    assert(g.rows()[p.spec_step(d).1 as int].len() == width);
    match d {
        Direction::North => {},
        Direction::South => {},
        Direction::East => {},
        Direction::West => {},
    }
}

proof fn lemma_accumulate(v: nat, x: u32, c: char)
    requires
        x == v % word_range(),
        is_digit(c),
    ensures
        ((x as nat * 10) % word_range() + digit_value(c)) % word_range() == (v * 10 + digit_value(c)) % word_range(),
{
    let m = word_range() as int;
    vstd::arithmetic::div_mod::lemma_mul_mod_noop_left(v as int, 10, m);
    vstd::arithmetic::div_mod::lemma_add_mod_noop((v * 10) as int, digit_value(c) as int, m);
    vstd::arithmetic::div_mod::lemma_add_mod_noop(((x as nat * 10) % word_range()) as int, digit_value(c) as int, m);
    vstd::arithmetic::div_mod::lemma_mod_twice((x as nat * 10) as int, m);
}

fn digit_value_of(c: char) -> (r: u32)
    requires
        is_digit(c),
    ensures
        r == digit_value(c),
{
    (c as u32) - ('0' as u32)
}

fn is_digit_char(c: char) -> (r: bool)
    ensures
        r == is_digit(c),
{
    '0' <= c && c <= '9'
}

/// Scans a number literal whose first digit is at `*position`.
fn scan_number(position: &mut Position, direction: Direction, code: &Grid, first: char)
    -> (r: Result<(OperatorSymbol, Directions), CompileError>)
    requires
        code.cell(*old(position)) == Some(first),
        is_digit(first),
    ensures
        lexed(code, *old(position), direction, r, *final(position)),
{
    reveal(lexed);
    let start = *position;
    let width = code.width();
    let height = code.height();
    let mut x: u32 = digit_value_of(first);
    let ghost mut k: nat = 0;
    proof {
        assert(walk(start, direction, 0) == start);
        assert(run_chars(code, start, direction, 0, 1) =~= seq![first]);
        assert(seq![first].drop_last() =~= Seq::<char>::empty());
        assert(seq![first].last() == first);
        assert(digits_value(seq![first]) == digits_value(Seq::<char>::empty()) * 10 + digit_value(first));
        assert(digit_run(code, start, direction, 0)) by {
            assert forall|i: nat| i <= 0 implies (#[trigger] code.cell(walk(start, direction, i)) matches Some(c) && is_digit(c)) by {
                assert(walk(start, direction, 0) == start);
            }
        }
    }
    loop
        invariant
            width == code.spec_width(),
            height == code.rows().len(),
            forall|i: int| 0 <= i < code.rows().len() ==> #[trigger] code.rows()[i].len() == width,
            start == *old(position),
            code.cell(start) == Some(first),
            is_digit(first),
            *position == walk(start, direction, k),
            digit_run(code, start, direction, k),
            x == digits_value(run_chars(code, start, direction, 0, k + 1)) % word_range(),
        decreases room(*position, direction, width as nat, height as nat),
    {
        let next = position.step(direction);
        assert(code.cell(walk(start, direction, k)) is Some);
        match code.get(next) {
            None => {
                proof {
                    reveal(lexed);
                    assert(walk(start, direction, k + 1) == next);
                    assert(lexed(code, start, direction, Err(CompileError::OutOfBoundsLiteral { position: start }), *position)) by {
                        assert(digit_run(code, start, direction, k) && code.cell(walk(start, direction, k + 1)) is None);
                    }
                }
                return Err(CompileError::OutOfBoundsLiteral { position: start });
            },
            Some(nc) => {
                proof { assert(walk(start, direction, k + 1) == next); }
                if is_digit_char(nc) {
                    let dv = digit_value_of(nc);
                    proof {
                        let s1 = run_chars(code, start, direction, 0, k + 1);
                        let s2 = run_chars(code, start, direction, 0, k + 2);
                        assert(s2.drop_last() =~= s1);
                        assert(s2.last() == nc);
                        lemma_accumulate(digits_value(s1), x, nc);
                        lemma_step_on_grid(code, *position, direction, width as nat);
                        assert(digit_run(code, start, direction, k + 1)) by {
                            assert forall|i: nat| i <= k + 1 implies (#[trigger] code.cell(walk(start, direction, i)) matches Some(c) && is_digit(c)) by {
                                if i <= k {
                                    assert(code.cell(walk(start, direction, i)) matches Some(c) && is_digit(c));
                                }
                            }
                        }
                    }
                    x = x.wrapping_mul(10).wrapping_add(dv);
                    *position = next;
                    proof { k = k + 1; }
                } else {
                    let r = Ok((OperatorSymbol::Number(x), Directions::Continue(direction)));
                    proof {
                        reveal(lexed);
                        assert(digit_run(code, start, direction, k) && match code.cell(walk(start, direction, k + 1)) {
                            Some(n) => !is_digit(n) && *position == walk(start, direction, k) && r == Ok::<(OperatorSymbol, Directions), CompileError>((
                                OperatorSymbol::Number((digits_value(run_chars(code, start, direction, 0, k + 1)) % word_range()) as u32),
                                Directions::Continue(direction),
                            )),
                            None => false,
                        });
                        assert(lexed(code, start, direction, r, *position));
                    }
                    return r;
                }
            },
        }
    }
}

/// Scans a string literal whose opening quote is at `*position`.
fn scan_string(position: &mut Position, direction: Direction, code: &Grid)
    -> (r: Result<(OperatorSymbol, Directions), CompileError>)
    requires
        code.cell(*old(position)) == Some('"'),
    ensures
        lexed(code, *old(position), direction, r, *final(position)),
{
    reveal(lexed);
    let start = *position;
    let width = code.width();
    let height = code.height();
    let mut text = String::new();
    let ghost mut k: nat = 1;
    proof {
        assert(walk(start, direction, 0) == start);
        assert(text@ =~= run_chars(code, start, direction, 1, 0));
    }
    loop
        invariant
            width == code.spec_width(),
            height == code.rows().len(),
            forall|i: int| 0 <= i < code.rows().len() ==> #[trigger] code.rows()[i].len() == width,
            start == *old(position),
            code.cell(start) == Some('"'),
            k >= 1,
            *position == walk(start, direction, (k - 1) as nat),
            code.cell(*position) is Some,
            string_body(code, start, direction, k),
            text@ == run_chars(code, start, direction, 1, (k - 1) as nat),
        decreases room(*position, direction, width as nat, height as nat),
    {
        let next = position.step(direction);
        proof { assert(walk(start, direction, k) == next); }
        match code.get(next) {
            None => {
                proof {
                    reveal(lexed);
                    assert(k >= 1 && string_body(code, start, direction, k) && code.cell(walk(start, direction, k)) is None);
                }
                return Err(CompileError::OutOfBoundsLiteral { position: start });
            },
            Some(nc) => {
                proof { lemma_step_on_grid(code, *position, direction, width as nat); }
                *position = next;
                if nc == '"' {
                    let r = Ok((OperatorSymbol::String(text), Directions::Continue(direction)));
                    proof {
                        reveal(lexed);
                        assert(k >= 1 && string_body(code, start, direction, k) && code.cell(walk(start, direction, k)) == Some('"'));
                    }
                    return r;
                }
                push_char(&mut text, nc);
                proof {
                    assert(text@ =~= run_chars(code, start, direction, 1, k));
                    assert(string_body(code, start, direction, k + 1)) by {
                        assert forall|i: nat| 0 < i < k + 1 implies (#[trigger] code.cell(walk(start, direction, i)) matches Some(c) && c != '"') by {
                            if i < k {
                                assert(code.cell(walk(start, direction, i)) matches Some(c) && c != '"');
                            }
                        }
                    }
                    k = k + 1;
                }
            },
        }
    }
}

/// Lexes the instruction at `*position` for a walk travelling in
/// `direction`. A number or string literal covers several cells; `position`
/// is then left on its last cell.
pub fn parse_operator(position: &mut Position, direction: Direction, code: &Grid)
    -> (r: Result<(OperatorSymbol, Directions), CompileError>)
    ensures
        lexed(code, *old(position), direction, r, *final(position)),
{
    reveal(lexed);
    let c = match code.get(*position) {
        None => return Ok((OperatorSymbol::Halt, Directions::Halt)),
        Some(c) => c,
    };
    if is_digit_char(c) {
        scan_number(position, direction, code, c)
    } else if c == '"' {
        scan_string(position, direction, code)
    } else {
        match symbol_of_glyph(c) {
            Some(op) => Ok((op, exit_of_glyph(c, direction))),
            None => Err(CompileError::InvalidCharacter { ch: c, position: *position }),
        }
    }
}

} // verus!
