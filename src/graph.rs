use vstd::prelude::*;
use crate::error::CompileError;
use crate::grid::Grid;
use crate::lexer::{lexed, parse_operator, Directions, OperatorSymbol};
use crate::position::{Direction, ExpressionIdentifier, Position};

verus! {

/// The number of `None` entries of `s`.
pub open spec fn count_none<A>(s: Seq<Option<A>>) -> nat
    decreases s.len(),
{
    if s.len() == 0 {
        0
    } else {
        count_none(s.drop_last()) + if s.last() is None { 1nat } else { 0nat }
    }
}

proof fn lemma_count_none_fill<A>(s: Seq<Option<A>>, i: int, v: A)
    requires
        0 <= i < s.len(),
        s[i] is None,
    ensures
        count_none(s.update(i, Some(v))) + 1 == count_none(s),
    decreases s.len(),
{
    let t = s.update(i, Some(v));
    if i == s.len() - 1 {
        assert(t.drop_last() =~= s.drop_last());
    } else {
        assert(t.drop_last() =~= s.drop_last().update(i, Some(v)));
        lemma_count_none_fill(s.drop_last(), i, v);
    }
}

proof fn lemma_mixed_radix(a: int, b: int, bb: int, aa: int)
    requires
        0 <= a < aa,
        0 <= b < bb,
    ensures
        0 <= a * bb + b < aa * bb,
{
    assert(0 <= a * bb) by (nonlinear_arith)
        requires 0 <= a, 0 <= b, b < bb;
    assert(a * bb + b < aa * bb) by (nonlinear_arith)
        requires 0 <= a < aa, 0 <= b < bb;
}

proof fn lemma_mixed_radix_unique(a1: int, b1: int, a2: int, b2: int, bb: int)
    requires
        0 <= a1,
        0 <= a2,
        0 <= b1 < bb,
        0 <= b2 < bb,
        a1 * bb + b1 == a2 * bb + b2,
    ensures
        a1 == a2,
        b1 == b2,
{
    if a1 < a2 {
        assert(a1 * bb + b1 < a2 * bb + b2) by (nonlinear_arith)
            requires 0 <= a1 < a2, 0 <= b1 < bb, 0 <= b2;
    } else if a2 < a1 {
        assert(a2 * bb + b2 < a1 * bb + b1) by (nonlinear_arith)
            requires 0 <= a2 < a1, 0 <= b2 < bb, 0 <= b1;
    }
}

pub open spec fn direction_index(d: Direction) -> int {
    match d {
        Direction::North => 0,
        Direction::South => 1,
        Direction::East => 2,
        Direction::West => 3,
    }
}

/// A coordinate that a walk on a grid `limit` cells long in that axis can
/// reach: on the grid, one past its far edge, or one before its near edge
/// (which wraps to `usize::MAX`).
pub open spec fn reachable_coord(v: usize, limit: nat) -> bool {
    v <= limit || v == usize::MAX
}

pub open spec fn coord_index(v: usize, limit: nat) -> int {
    if v == usize::MAX { limit + 1int } else { v as int }
}

/// The key's position is reachable on a `width` by `height` grid.
pub open spec fn bounded_key(k: ExpressionIdentifier, width: nat, height: nat) -> bool {
    reachable_coord(k.position.0, width) && reachable_coord(k.position.1, height)
}

/// Size of the dense table of keys of a `width` by `height` grid.
pub open spec fn table_size(width: nat, height: nat) -> int {
    ((width + 2) * (height + 2) * 8) as int
}

/// Index of a bounded key in the dense table.
pub open spec fn key_index(k: ExpressionIdentifier, width: nat, height: nat) -> int {
    ((coord_index(k.position.0, width) * (height + 2) + coord_index(k.position.1, height)) * 4
        + direction_index(k.direction)) * 2 + if k.inverse_mode { 1int } else { 0int }
}

proof fn lemma_key_index_bounds(k: ExpressionIdentifier, width: nat, height: nat)
    requires
        bounded_key(k, width, height),
    ensures
        0 <= key_index(k, width, height) < table_size(width, height),
{
    let x = coord_index(k.position.0, width);
    let y = coord_index(k.position.1, height);
    lemma_mixed_radix(x, y, (height + 2) as int, (width + 2) as int);
    let xy = x * (height + 2) + y;
    lemma_mixed_radix(xy, direction_index(k.direction), 4, ((width + 2) * (height + 2)) as int);
    let xyd = xy * 4 + direction_index(k.direction);
    lemma_mixed_radix(xyd, if k.inverse_mode { 1int } else { 0int }, 2, ((width + 2) * (height + 2) * 4) as int);
    assert((width + 2) * (height + 2) * 4 * 2 == (width + 2) * (height + 2) * 8) by (nonlinear_arith);
}

proof fn lemma_key_index_unique(k1: ExpressionIdentifier, k2: ExpressionIdentifier, width: nat, height: nat)
    requires
        bounded_key(k1, width, height),
        bounded_key(k2, width, height),
        key_index(k1, width, height) == key_index(k2, width, height),
    ensures
        k1 == k2,
{
    let x1 = coord_index(k1.position.0, width);
    let y1 = coord_index(k1.position.1, height);
    let x2 = coord_index(k2.position.0, width);
    let y2 = coord_index(k2.position.1, height);
    let i1 = if k1.inverse_mode { 1int } else { 0int };
    let i2 = if k2.inverse_mode { 1int } else { 0int };
    assert(0 <= x1 * (height + 2) + y1) by (nonlinear_arith) requires 0 <= x1, 0 <= y1, 0 <= height;
    assert(0 <= x2 * (height + 2) + y2) by (nonlinear_arith) requires 0 <= x2, 0 <= y2, 0 <= height;
    let xy1 = x1 * (height + 2) + y1;
    let xy2 = x2 * (height + 2) + y2;
    lemma_mixed_radix_unique(xy1 * 4 + direction_index(k1.direction), i1, xy2 * 4 + direction_index(k2.direction), i2, 2);
    lemma_mixed_radix_unique(xy1, direction_index(k1.direction), xy2, direction_index(k2.direction), 4);
    lemma_mixed_radix_unique(x1, y1, x2, y2, (height + 2) as int);
    assert(k1.position == k2.position);
    assert(k1.inverse_mode == k2.inverse_mode);
    assert(k1.direction == k2.direction);
}

proof fn lemma_table_parts(width: nat, height: nat)
    ensures
        width + 2 <= table_size(width, height),
        height + 2 <= table_size(width, height),
        (width + 2) * (height + 2) <= table_size(width, height),
        (width + 2) * (height + 2) * 4 <= table_size(width, height),
{
    assert(width + 2 <= (width + 2) * (height + 2)) by (nonlinear_arith);
    assert(height + 2 <= (width + 2) * (height + 2)) by (nonlinear_arith);
    assert((width + 2) * (height + 2) <= (width + 2) * (height + 2) * 4) by (nonlinear_arith);
    assert((width + 2) * (height + 2) * 4 <= (width + 2) * (height + 2) * 8) by (nonlinear_arith);
}

/// The slot of a bounded key in the dense table of a `width` by `height`
/// grid.
fn table_index(k: ExpressionIdentifier, width: usize, height: usize) -> (r: usize)
    requires
        bounded_key(k, width as nat, height as nat),
        table_size(width as nat, height as nat) <= usize::MAX,
    ensures
        r == key_index(k, width as nat, height as nat),
        r < table_size(width as nat, height as nat),
{
    let ghost w = width as nat;
    let ghost h = height as nat;
    proof {
        lemma_table_parts(w, h);
        lemma_key_index_bounds(k, w, h);
    }
    let x: usize = if k.position.0 == usize::MAX { width + 1 } else { k.position.0 };
    let y: usize = if k.position.1 == usize::MAX { height + 1 } else { k.position.1 };
    let d: usize = match k.direction {
        Direction::North => 0,
        Direction::South => 1,
        Direction::East => 2,
        Direction::West => 3,
    };
    let i: usize = if k.inverse_mode { 1 } else { 0 };
    proof {
        lemma_mixed_radix(x as int, y as int, (h + 2) as int, (w + 2) as int);
        assert(0 <= x * (h + 2)) by (nonlinear_arith) requires 0 <= x, 0 <= h;
        lemma_mixed_radix((x * (h + 2) + y) as int, d as int, 4, ((w + 2) * (h + 2)) as int);
        lemma_mixed_radix(((x * (h + 2) + y) * 4 + d) as int, i as int, 2, ((w + 2) * (h + 2) * 4) as int);
        assert((w + 2) * (h + 2) * 4 * 2 == (w + 2) * (h + 2) * 8) by (nonlinear_arith);
    }
    let xy = x * (height + 2) + y;
    ((xy * 4 + d) * 2) + i
}

/// One instruction of a basic block, with the state in which the walk
/// reached it.
#[derive(Debug)]
pub struct Operator {
    pub operation: OperatorSymbol,
    pub position: Position,
    pub in_direction: Direction,
    pub inverse: bool,
}

/// How a basic block ends.
#[derive(Clone, Copy, Debug, PartialEq, Eq, Structural)]
pub enum Branches {
    /// The program halts.
    Halt,
    /// Control goes on to one block.
    One(ExpressionIdentifier),
    /// Control goes to the first block when the popped control flag is
    /// true, else to the second.
    Two(ExpressionIdentifier, ExpressionIdentifier),
}

/// A basic block: straight-line instructions and how it ends.
#[derive(Debug)]
pub struct Expression {
    pub arr: Vec<Operator>,
    pub next: Branches,
}

/// The state in which an instruction was reached.
pub open spec fn state_key(op: Operator) -> ExpressionIdentifier {
    ExpressionIdentifier { position: op.position, direction: op.in_direction, inverse_mode: op.inverse }
}

/// Where the walk goes on after an instruction that ended at `q` with exit
/// `e`, in mode `inv`; `None` when the block ends there.
pub open spec fn continue_state(q: Position, e: Directions, inv: bool) -> Option<ExpressionIdentifier> {
    match e {
        Directions::Continue(d) => Some(ExpressionIdentifier { position: q.spec_step(d), direction: d, inverse_mode: inv }),
        Directions::ContinueInversed(d) => Some(ExpressionIdentifier { position: q.spec_step(d), direction: d, inverse_mode: !inv }),
        _ => None,
    }
}

/// The successor of a branch in `d` from `q`, in mode `inv`.
pub open spec fn branch_key(q: Position, d: Direction, inv: bool) -> ExpressionIdentifier {
    ExpressionIdentifier { position: q.spec_step(d), direction: d, inverse_mode: inv }
}

/// How a block whose last instruction ended at `q` with exit `e` (a halt
/// or a branch) hands on control. In inverse mode the two arms of a branch
/// trade places.
pub open spec fn branch_targets(q: Position, e: Directions, inv: bool) -> Branches {
    match e {
        Directions::Branch(a, b) => if inv {
            Branches::Two(branch_key(q, b, inv), branch_key(q, a, inv))
        } else {
            Branches::Two(branch_key(q, a, inv), branch_key(q, b, inv))
        },
        _ => Branches::Halt,
    }
}

/// A branch reached in inverse mode hands control to the same two cells,
/// entered in the same directions, as in forward mode, with the roles of
/// the arms swapped: the forward "true" arm becomes the inverse "false" arm.
pub proof fn lemma_branch_roles_swap(q: Position, a: Direction, b: Direction)
    ensures
        branch_targets(q, Directions::Branch(a, b), false) matches Branches::Two(f1, f2)
            && branch_targets(q, Directions::Branch(a, b), true) matches Branches::Two(i1, i2)
            && i1.position == f2.position && i1.direction == f2.direction
            && i2.position == f1.position && i2.direction == f1.direction
            && i1.inverse_mode && i2.inverse_mode && !f1.inverse_mode && !f2.inverse_mode,
{
}

/// `op` lexes without error, and the walk then goes on in state `s`.
pub open spec fn moves_to(g: &Grid, op: Operator, s: ExpressionIdentifier) -> bool {
    exists|q: Position, e: Directions|
        lexed(g, op.position, op.in_direction, Ok((op.operation, e)), q)
            && continue_state(q, e, op.inverse) == Some(s)
}

/// `op` lexes without error and ends a block whose earlier instructions are
/// `prior`: at a halt or branch, or by a jump back to a state of `prior`.
pub open spec fn ends_with(g: &Grid, op: Operator, next: Branches, prior: Seq<Operator>) -> bool {
    exists|q: Position, e: Directions|
        lexed(g, op.position, op.in_direction, Ok((op.operation, e)), q)
            && match continue_state(q, e, op.inverse) {
                Some(s) => next == Branches::One(s)
                    && exists|j: int| 0 <= j < prior.len() && state_key(#[trigger] prior[j]) == s,
                None => next == branch_targets(q, e, op.inverse),
            }
}

/// `b` is the block that the walk from `key` produces: it starts in that
/// state, each instruction leads to the next, no state is visited twice,
/// and it ends at a halt, a branch, or a jump to a state it already visited.
pub open spec fn valid_block(g: &Grid, key: ExpressionIdentifier, b: Expression) -> bool {
    let ops = b.arr@;
    &&& ops.len() >= 1
    &&& state_key(ops[0]) == key
    &&& forall|i: int| 0 <= i < ops.len() - 1 ==> #[trigger] moves_to(g, ops[i], state_key(ops[i + 1]))
    &&& ends_with(g, ops.last(), b.next, ops)
    &&& forall|i: int, j: int| 0 <= i < j < ops.len() ==> state_key(#[trigger] ops[i]) != state_key(#[trigger] ops[j])
}

/// The successors a block hands control to.
pub open spec fn successors(b: Branches) -> Seq<ExpressionIdentifier> {
    match b {
        Branches::Halt => seq![],
        Branches::One(k) => seq![k],
        Branches::Two(k1, k2) => seq![k1, k2],
    }
}

proof fn lemma_lexed_ends_on_grid(
    g: &Grid,
    p: Position,
    d: Direction,
    r: Result<(OperatorSymbol, Directions), CompileError>,
    q: Position,
)
    requires
        lexed(g, p, d, r, q),
        r matches Ok((_, e)) && e != Directions::Halt,
    ensures
        g.cell(q) is Some,
{
    reveal(lexed);
    let c = g.cell(p)->Some_0;
    if crate::lexer::is_digit(c) {
        let k = choose|k: nat|
            #![trigger crate::lexer::walk(p, d, k)]
            crate::lexer::digit_run(g, p, d, k) && match g.cell(crate::lexer::walk(p, d, k + 1)) {
                Some(n) => !crate::lexer::is_digit(n) && q == crate::lexer::walk(p, d, k) && r == Ok::<(OperatorSymbol, Directions), CompileError>((
                    OperatorSymbol::Number((crate::lexer::digits_value(crate::lexer::run_chars(g, p, d, 0, k + 1)) % crate::lexer::word_range()) as u32),
                    Directions::Continue(d),
                )),
                None => r == Err::<(OperatorSymbol, Directions), CompileError>(CompileError::OutOfBoundsLiteral { position: p }),
            };
        assert(g.cell(crate::lexer::walk(p, d, k)) is Some);
    }
}

/// A cell on the grid steps to a position that is bounded.
proof fn lemma_step_bounded(g: &Grid, q: Position, d: Direction, inv: bool, width: nat, height: nat)
    requires
        g.cell(q) is Some,
        forall|i: int| 0 <= i < g.rows().len() ==> #[trigger] g.rows()[i].len() == width,
        g.rows().len() == height,
        width <= usize::MAX,
        height <= usize::MAX,
    ensures
        bounded_key(ExpressionIdentifier { position: q.spec_step(d), direction: d, inverse_mode: inv }, width, height),
{
    assert(g.rows()[q.1 as int].len() == width);
}

/// The visited table `seen` records exactly the states of `arr`, by index.
#[verifier::opaque]
spec fn table_tracks(seen: Seq<Option<usize>>, arr: Seq<Operator>, w: nat, h: nat) -> bool {
    &&& forall|c: int| 0 <= c < seen.len() ==> (#[trigger] seen[c] matches Some(j) ==> j < arr.len()
        && key_index(state_key(arr[j as int]), w, h) == c)
    &&& forall|j: int| 0 <= j < arr.len() ==> bounded_key(state_key(#[trigger] arr[j]), w, h)
        && seen[key_index(state_key(arr[j]), w, h)] == Some(j as usize)
}

/// Each instruction of `arr` leads to the next, and no state repeats.
pub open spec fn chain(g: &Grid, arr: Seq<Operator>) -> bool {
    &&& forall|i: int| 0 <= i < arr.len() - 1 ==> #[trigger] moves_to(g, arr[i], state_key(arr[i + 1]))
    &&& forall|i: int, j: int| 0 <= i < j < arr.len() ==> state_key(#[trigger] arr[i]) != state_key(#[trigger] arr[j])
}

/// `ops` are the first instructions of the walk from `key`, visiting no
/// state twice, and the walk then stands in state `s`.
pub open spec fn walk_prefix(g: &Grid, key: ExpressionIdentifier, ops: Seq<Operator>, s: ExpressionIdentifier) -> bool {
    &&& chain(g, ops)
    &&& ops.len() == 0 ==> s == key
    &&& ops.len() > 0 ==> state_key(ops[0]) == key && moves_to(g, ops.last(), s)
}

/// The walk from `key` reaches a state where lexing fails with `e`.
pub open spec fn walk_fails(g: &Grid, key: ExpressionIdentifier, e: CompileError) -> bool {
    exists|ops: Seq<Operator>, s: ExpressionIdentifier, q: Position|
        walk_prefix(g, key, ops, s) && lexed(g, s.position, s.direction, Err(e), q)
}

proof fn lemma_walk_fails_kind(g: &Grid, key: ExpressionIdentifier, e: CompileError)
    requires
        walk_fails(g, key, e),
    ensures
        e is InvalidCharacter || e is OutOfBoundsLiteral,
{
    let (ops, s, q) = choose|ops: Seq<Operator>, s: ExpressionIdentifier, q: Position|
        walk_prefix(g, key, ops, s) && lexed(g, s.position, s.direction, Err(e), q);
    reveal(lexed);
}

/// From key `a` control can pass to key `b`: the block of `a` has `b` as a
/// successor.
pub open spec fn steps_to(g: &Grid, a: ExpressionIdentifier, b: ExpressionIdentifier) -> bool {
    exists|blk: Expression| valid_block(g, a, blk) && successors(blk.next).contains(b)
}

/// Key `k` is reachable from key `start` along block successors.
pub open spec fn reachable(g: &Grid, start: ExpressionIdentifier, k: ExpressionIdentifier) -> bool {
    exists|ks: Seq<ExpressionIdentifier>| {
        &&& ks.len() >= 1
        &&& ks[0] == start
        &&& ks.last() == k
        &&& forall|i: int| 0 <= i < ks.len() - 1 ==> #[trigger] steps_to(g, ks[i], ks[i + 1])
    }
}

proof fn lemma_reachable_start(g: &Grid, start: ExpressionIdentifier)
    ensures
        reachable(g, start, start),
{
    let ks = seq![start];
    assert(ks.len() >= 1 && ks[0] == start && ks.last() == start);
}

proof fn lemma_reachable_step(g: &Grid, start: ExpressionIdentifier, k: ExpressionIdentifier, b: Expression, i: int)
    requires
        reachable(g, start, k),
        valid_block(g, k, b),
        0 <= i < successors(b.next).len(),
    ensures
        reachable(g, start, successors(b.next)[i]),
{
    let s = successors(b.next)[i];
    let ks = choose|ks: Seq<ExpressionIdentifier>| {
        &&& ks.len() >= 1
        &&& ks[0] == start
        &&& ks.last() == k
        &&& forall|i: int| 0 <= i < ks.len() - 1 ==> #[trigger] steps_to(g, ks[i], ks[i + 1])
    };
    assert(successors(b.next).contains(s));
    assert(steps_to(g, k, s));
    let ks2 = ks.push(s);
    assert forall|j: int| 0 <= j < ks2.len() - 1 implies #[trigger] steps_to(g, ks2[j], ks2[j + 1]) by {
        if j < ks.len() - 1 {
            assert(ks2[j] == ks[j] && ks2[j + 1] == ks[j + 1]);
            assert(steps_to(g, ks[j], ks[j + 1]));
        } else {
            assert(ks2[j] == k && ks2[j + 1] == s);
        }
    }
    assert(ks2[0] == start && ks2.last() == s);
}

proof fn lemma_table_empty(seen: Seq<Option<usize>>, w: nat, h: nat)
    requires
        forall|c: int| 0 <= c < seen.len() ==> seen[c] is None,
    ensures
        table_tracks(seen, Seq::empty(), w, h),
{
    reveal(table_tracks);
}

proof fn lemma_table_unseen(seen: Seq<Option<usize>>, arr: Seq<Operator>, cur: ExpressionIdentifier, w: nat, h: nat)
    requires
        table_tracks(seen, arr, w, h),
        bounded_key(cur, w, h),
        seen[key_index(cur, w, h)] is None,
    ensures
        forall|i: int| 0 <= i < arr.len() ==> state_key(#[trigger] arr[i]) != cur,
{
    reveal(table_tracks);
    assert forall|i: int| 0 <= i < arr.len() implies state_key(#[trigger] arr[i]) != cur by {
        if state_key(arr[i]) == cur {
            assert(seen[key_index(cur, w, h)] == Some(i as usize));
        }
    }
}

proof fn lemma_table_push(seen: Seq<Option<usize>>, arr: Seq<Operator>, op: Operator, w: nat, h: nat)
    requires
        table_tracks(seen, arr, w, h),
        bounded_key(state_key(op), w, h),
        0 <= key_index(state_key(op), w, h) < seen.len(),
        seen[key_index(state_key(op), w, h)] is None,
        arr.len() <= usize::MAX,
        seen.len() == table_size(w, h),
    ensures
        table_tracks(seen.update(key_index(state_key(op), w, h), Some(arr.len() as usize)), arr.push(op), w, h),
{
    reveal(table_tracks);
    let idx = key_index(state_key(op), w, h);
    let s2 = seen.update(idx, Some(arr.len() as usize));
    let a2 = arr.push(op);
    assert forall|c: int| 0 <= c < s2.len() implies (#[trigger] s2[c] matches Some(j) ==> j < a2.len()
        && key_index(state_key(a2[j as int]), w, h) == c) by {
        if c != idx {
            if let Some(j) = seen[c] {
                assert(a2[j as int] == arr[j as int]);
            }
        }
    }
    assert forall|j: int| 0 <= j < a2.len() implies bounded_key(state_key(#[trigger] a2[j]), w, h)
        && s2[key_index(state_key(a2[j]), w, h)] == Some(j as usize) by {
        if j < arr.len() {
            assert(a2[j] == arr[j]);
            let kj = key_index(state_key(arr[j]), w, h);
            lemma_key_index_bounds(state_key(arr[j]), w, h);
            assert(seen[kj] == Some(j as usize));
            assert(kj != idx);
            assert(s2[kj] == seen[kj]);
        }
    }
}

proof fn lemma_table_lookup(seen: Seq<Option<usize>>, arr: Seq<Operator>, k: ExpressionIdentifier, w: nat, h: nat)
    requires
        table_tracks(seen, arr, w, h),
        bounded_key(k, w, h),
        0 <= key_index(k, w, h) < seen.len(),
        seen[key_index(k, w, h)] is Some,
    ensures
        ({
            let j = seen[key_index(k, w, h)]->Some_0;
            j < arr.len() && state_key(arr[j as int]) == k
        }),
{
    reveal(table_tracks);
    let j = seen[key_index(k, w, h)]->Some_0;
    assert(bounded_key(state_key(arr[j as int]), w, h));
    lemma_key_index_unique(state_key(arr[j as int]), k, w, h);
}

proof fn lemma_chain_push(g: &Grid, arr: Seq<Operator>, op: Operator)
    requires
        chain(g, arr),
        arr.len() > 0 ==> moves_to(g, arr.last(), state_key(op)),
        forall|i: int| 0 <= i < arr.len() ==> state_key(#[trigger] arr[i]) != state_key(op),
    ensures
        chain(g, arr.push(op)),
{
    let a2 = arr.push(op);
    assert forall|i: int| 0 <= i < a2.len() - 1 implies #[trigger] moves_to(g, a2[i], state_key(a2[i + 1])) by {
        if i < arr.len() - 1 {
            assert(a2[i] == arr[i] && a2[i + 1] == arr[i + 1]);
        } else {
            assert(a2[i] == arr.last() && a2[i + 1] == op);
        }
    }
    assert forall|i: int, j: int| 0 <= i < j < a2.len() implies state_key(#[trigger] a2[i]) != state_key(#[trigger] a2[j]) by {
        if j < arr.len() {
            assert(a2[i] == arr[i] && a2[j] == arr[j]);
        } else {
            assert(a2[i] == arr[i]);
        }
    }
}

/// Walks the grid from `position`, entered travelling in `direction` in
/// the given mode, and collects the basic block that starts there. The
/// block ends at a halt, at a branch, or when the walk comes back to a state
/// it has already visited, which it then jumps to.
#[verifier::rlimit(60)]
pub fn parse_expression(code: &Grid, position: Position, direction: Direction, inverse_mode: bool)
    -> (r: Result<Expression, CompileError>)
    requires
        table_size(code.spec_width(), code.rows().len()) <= usize::MAX,
        bounded_key(ExpressionIdentifier { position, direction, inverse_mode }, code.spec_width(), code.rows().len()),
    ensures
        r matches Ok(b) ==> valid_block(code, ExpressionIdentifier { position, direction, inverse_mode }, b)
            && forall|i: int| 0 <= i < successors(b.next).len()
                ==> bounded_key(#[trigger] successors(b.next)[i], code.spec_width(), code.rows().len()),
        r matches Err(e) ==> walk_fails(code, ExpressionIdentifier { position, direction, inverse_mode }, e),
{
    let width = code.width();
    let height = code.height();
    let ghost w = width as nat;
    let ghost h = height as nat;
    proof { lemma_table_parts(w, h); }
    let size = (width + 2) * (height + 2) * 8;
    let mut seen: Vec<Option<usize>> = Vec::new();
    while seen.len() < size
        invariant
            seen@.len() <= size,
            forall|c: int| 0 <= c < seen@.len() ==> seen@[c] is None,
        decreases size - seen@.len(),
    {
        seen.push(None);
    }
    let initial = ExpressionIdentifier::new(inverse_mode, position, direction);
    let mut arr: Vec<Operator> = Vec::new();
    let mut cur = initial;
    proof {
        lemma_key_index_bounds(initial, w, h);
        lemma_table_empty(seen@, w, h);
    }
    loop
        invariant
            width == code.spec_width(),
            height == code.rows().len(),
            w == width,
            h == height,
            forall|i: int| 0 <= i < code.rows().len() ==> #[trigger] code.rows()[i].len() == width,
            size == table_size(w, h),
            size <= usize::MAX,
            seen@.len() == size,
            initial == (ExpressionIdentifier { position, direction, inverse_mode }),
            table_tracks(seen@, arr@, w, h),
            bounded_key(cur, w, h),
            seen@[key_index(cur, w, h)] is None,
            arr@.len() == 0 ==> cur == initial,
            arr@.len() > 0 ==> state_key(arr@[0]) == initial && moves_to(code, arr@.last(), cur),
            chain(code, arr@),
        decreases count_none(seen@),
    {
        let idx = table_index(cur, width, height);
        let ghost prev = arr@;
        let ghost prev_seen = seen@;
        proof {
            lemma_count_none_fill(seen@, idx as int, arr@.len() as usize);
            lemma_table_unseen(seen@, arr@, cur, w, h);
        }
        seen.set(idx, Some(arr.len()));
        let mut q = cur.position;
        let lex = parse_operator(&mut q, cur.direction, code);
        let (op, exit) = match lex {
            Err(e) => {
                proof {
                    assert(lexed(code, cur.position, cur.direction, Err(e), q));
                    assert(walk_prefix(code, initial, arr@, cur));
                }
                return Err(e);
            },
            Ok(pair) => pair,
        };
        let ghost lexed_op = Operator { operation: op, position: cur.position, in_direction: cur.direction, inverse: cur.inverse_mode };
        proof {
            assert(lexed(code, lexed_op.position, lexed_op.in_direction, Ok((lexed_op.operation, exit)), q));
        }
        arr.push(Operator { operation: op, position: cur.position, in_direction: cur.direction, inverse: cur.inverse_mode });
        proof {
            assert(arr@ == prev.push(lexed_op));
            assert(state_key(lexed_op) == cur);
            lemma_table_push(prev_seen, prev, lexed_op, w, h);
            lemma_chain_push(code, prev, lexed_op);
            assert(state_key(arr@[0]) == initial);
            assert(arr@.last() == lexed_op);
        }
        match exit {
            Directions::Halt => {
                let b = Expression { arr, next: Branches::Halt };
                proof {
                    assert(continue_state(q, exit, cur.inverse_mode) is None);
                }
                return Ok(b);
            },
            Directions::Branch(da, db) => {
                proof {
                    lemma_lexed_ends_on_grid(code, cur.position, cur.direction, Ok((lexed_op.operation, exit)), q);
                    lemma_step_bounded(code, q, da, cur.inverse_mode, w, h);
                    lemma_step_bounded(code, q, db, cur.inverse_mode, w, h);
                }
                let one = ExpressionIdentifier::new(cur.inverse_mode, q.step(da), da);
                let two = ExpressionIdentifier::new(cur.inverse_mode, q.step(db), db);
                let next = if cur.inverse_mode { Branches::Two(two, one) } else { Branches::Two(one, two) };
                let b = Expression { arr, next };
                proof {
                    assert(continue_state(q, exit, cur.inverse_mode) is None);
                }
                return Ok(b);
            },
            Directions::Continue(d) | Directions::ContinueInversed(d) => {
                let inv = match exit {
                    Directions::ContinueInversed(_) => !cur.inverse_mode,
                    _ => cur.inverse_mode,
                };
                proof {
                    lemma_lexed_ends_on_grid(code, cur.position, cur.direction, Ok((lexed_op.operation, exit)), q);
                    lemma_step_bounded(code, q, d, inv, w, h);
                }
                let nkey = ExpressionIdentifier::new(inv, q.step(d), d);
                proof {
                    assert(continue_state(q, exit, cur.inverse_mode) == Some(nkey));
                    assert(moves_to(code, lexed_op, nkey));
                }
                let nidx = table_index(nkey, width, height);
                match seen[nidx] {
                    Some(j) => {
                        proof { lemma_table_lookup(seen@, arr@, nkey, w, h); }
                        let b = Expression { arr, next: Branches::One(nkey) };
                        proof {
                            assert(0 <= j < b.arr@.len() && state_key(b.arr@[j as int]) == nkey);
                        }
                        return Ok(b);
                    },
                    None => {
                        cur = nkey;
                    },
                }
            },
        }
    }
}

/// `p` holds the start glyph.
pub open spec fn is_start(g: &Grid, p: Position) -> bool {
    g.cell(p) == Some('@')
}

/// Finds the single start glyph of the grid.
pub fn get_start_pos(code: &Grid) -> (r: Result<Position, CompileError>)
    ensures
        match r {
            Ok(p) => is_start(code, p) && forall|other: Position| is_start(code, other) ==> other == p,
            Err(CompileError::MissingStart) => forall|p: Position| !is_start(code, p),
            Err(CompileError::MultipleStart) => exists|first: Position, other: Position|
                first != other && is_start(code, first) && is_start(code, other),
            Err(_) => false,
        },
{
    let width = code.width();
    let height = code.height();
    let mut found: Option<Position> = None;
    let mut y: usize = 0;
    while y < height
        invariant
            width == code.spec_width(),
            height == code.rows().len(),
            forall|i: int| 0 <= i < code.rows().len() ==> #[trigger] code.rows()[i].len() == width,
            y <= height,
            match found {
                Some(p) => is_start(code, p) && p.1 < y
                    && forall|other: Position| other.1 < y && is_start(code, other) ==> other == p,
                None => forall|other: Position| other.1 < y ==> !is_start(code, other),
            },
        decreases height - y,
    {
        let mut x: usize = 0;
        while x < width
            invariant
                width == code.spec_width(),
                height == code.rows().len(),
                forall|i: int| 0 <= i < code.rows().len() ==> #[trigger] code.rows()[i].len() == width,
                y < height,
                x <= width,
                match found {
                    Some(p) => is_start(code, p) && (p.1 < y || (p.1 == y && p.0 < x))
                        && forall|other: Position| (other.1 < y || (other.1 == y && other.0 < x)) && is_start(code, other) ==> other == p,
                    None => forall|other: Position| (other.1 < y || (other.1 == y && other.0 < x)) ==> !is_start(code, other),
                },
            decreases width - x,
        {
            let here = Position(x, y);
            let glyph = code.get(here);
            if glyph.is_some() && glyph.unwrap() == '@' {
                match found {
                    Some(p) => {
                        proof {
                            assert(p != here && is_start(code, p) && is_start(code, here));
                        }
                        return Err(CompileError::MultipleStart);
                    },
                    None => {
                        found = Some(here);
                    },
                }
            }
            x += 1;
        }
        proof {
            assert forall|other: Position| other.1 == y && other.0 >= width implies !is_start(code, other) by {
                assert(code.rows()[y as int].len() == width);
            }
        }
        y += 1;
    }
    proof {
        assert forall|other: Position| other.1 >= height implies !is_start(code, other) by {}
    }
    match found {
        Some(p) => Ok(p),
        None => Err(CompileError::MissingStart),
    }
}

/// The slot for `k` in `slots` holds `k`'s block.
pub open spec fn slot_has(slots: Seq<Option<(ExpressionIdentifier, Expression)>>, k: ExpressionIdentifier, w: nat, h: nat) -> bool {
    &&& bounded_key(k, w, h)
    &&& 0 <= key_index(k, w, h) < slots.len()
    &&& slots[key_index(k, w, h)] matches Some(entry) && entry.0 == k
}

/// Every filled slot holds a block valid for its key, stored at that key's
/// index, whose successors are bounded and either stored or `pending`.
#[verifier::opaque]
spec fn slots_sound(
    g: &Grid,
    slots: Seq<Option<(ExpressionIdentifier, Expression)>>,
    pending: Seq<ExpressionIdentifier>,
    w: nat,
    h: nat,
) -> bool {
    forall|c: int| 0 <= c < slots.len() ==> (#[trigger] slots[c] matches Some(entry) ==> {
        &&& bounded_key(entry.0, w, h)
        &&& key_index(entry.0, w, h) == c
        &&& valid_block(g, entry.0, entry.1)
        &&& forall|i: int| 0 <= i < successors(entry.1.next).len() ==> {
            let s = #[trigger] successors(entry.1.next)[i];
            bounded_key(s, w, h) && (slot_has(slots, s, w, h) || pending.contains(s))
        }
    })
}

/// The program graph: the basic block of every key reachable from the
/// start.
pub struct ExpressionTree {
    slots: Vec<Option<(ExpressionIdentifier, Expression)>>,
    width: usize,
    height: usize,
    start: ExpressionIdentifier,
}

impl ExpressionTree {
    #[verifier::type_invariant]
    spec fn well_formed(&self) -> bool {
        &&& self.slots@.len() == table_size(self.width as nat, self.height as nat)
        &&& table_size(self.width as nat, self.height as nat) <= usize::MAX
        &&& forall|c: int| 0 <= c < self.slots@.len() ==> (#[trigger] self.slots@[c] matches Some(entry) ==> {
            &&& bounded_key(entry.0, self.width as nat, self.height as nat)
            &&& key_index(entry.0, self.width as nat, self.height as nat) == c
        })
    }

    /// The key of the block where the program starts.
    pub closed spec fn start_key(&self) -> ExpressionIdentifier {
        self.start
    }

    /// The key of the block where the program starts.
    pub fn start(&self) -> (r: ExpressionIdentifier)
        ensures
            r == self.start_key(),
    {
        self.start
    }

    /// The graph holds a block for `k`.
    pub closed spec fn has(&self, k: ExpressionIdentifier) -> bool {
        slot_has(self.slots@, k, self.width as nat, self.height as nat)
    }

    /// The block stored for `k`.
    pub closed spec fn block(&self, k: ExpressionIdentifier) -> Expression {
        self.slots@[key_index(k, self.width as nat, self.height as nat)]->Some_0.1
    }

    /// Every successor of every block is itself a key of the graph.
    pub open spec fn closed(&self) -> bool {
        forall|k: ExpressionIdentifier, i: int| self.has(k) && 0 <= i < successors(self.block(k).next).len()
            ==> self.has(#[trigger] successors(self.block(k).next)[i])
    }

    /// The block of `key`, if the graph holds one.
    pub fn get(&self, key: ExpressionIdentifier) -> (r: Option<&Expression>)
        ensures
            r == (if self.has(key) { Some(&self.block(key)) } else { None::<&Expression> }),
    {
        proof { use_type_invariant(self); }
        let w = self.width;
        let h = self.height;
        let k = key;
        let bx = k.position.0 <= w || k.position.0 == usize::MAX;
        let by = k.position.1 <= h || k.position.1 == usize::MAX;
        if !(bx && by) {
            return None;
        }
        let idx = table_index(k, w, h);
        match &self.slots[idx] {
            Some(entry) => if entry.0 == key { Some(&entry.1) } else { None },
            None => None,
        }
    }

    /// The keys of all blocks, each once.
    pub fn keys(&self) -> (r: Vec<ExpressionIdentifier>)
        ensures
            forall|k: ExpressionIdentifier| self.has(k) <==> r@.contains(k),
            r@.no_duplicates(),
    {
        proof { use_type_invariant(self); }
        let ghost w = self.width as nat;
        let ghost h = self.height as nat;
        let mut r: Vec<ExpressionIdentifier> = Vec::new();
        let mut c: usize = 0;
        while c < self.slots.len()
            invariant
                c <= self.slots@.len(),
                self.slots@.len() == table_size(w, h),
                w == self.width,
                h == self.height,
                forall|c2: int| 0 <= c2 < self.slots@.len() ==> (#[trigger] self.slots@[c2] matches Some(entry) ==> {
                    &&& bounded_key(entry.0, w, h)
                    &&& key_index(entry.0, w, h) == c2
                }),
                forall|k: ExpressionIdentifier| (self.has(k) && key_index(k, w, h) < c) <==> r@.contains(k),
                forall|i: int| 0 <= i < r@.len() ==> key_index(#[trigger] r@[i], w, h) < c,
                r@.no_duplicates(),
            decreases self.slots@.len() - c,
        {
            match &self.slots[c] {
                Some(entry) => {
                    let k = entry.0;
                    proof {
                        assert(!r@.contains(k)) by {
                            if r@.contains(k) {
                                let i = choose|i: int| 0 <= i < r@.len() && r@[i] == k;
                                assert(key_index(r@[i], w, h) < c);
                            }
                        }
                    }
                    let ghost prev = r@;
                    r.push(k);
                    proof {
                        assert(self.has(k));
                        assert forall|k2: ExpressionIdentifier| r@.contains(k2) <==> (prev.contains(k2) || k2 == k) by {
                            if r@.contains(k2) && k2 != k {
                                let i = choose|i: int| 0 <= i < r@.len() && r@[i] == k2;
                                assert(prev[i] == k2);
                            }
                            if prev.contains(k2) {
                                let i = choose|i: int| 0 <= i < prev.len() && prev[i] == k2;
                                assert(r@[i] == k2);
                            }
                            if k2 == k {
                                assert(r@[r@.len() - 1] == k2);
                            }
                        }
                    }
                },
                None => {
                    proof {
                        assert forall|k2: ExpressionIdentifier| (self.has(k2) && key_index(k2, w, h) < c + 1) <==> r@.contains(k2) by {
                            if self.has(k2) && key_index(k2, w, h) == c {
                                assert(self.slots@[c as int] is Some);
                            }
                        }
                    }
                },
            }
            c += 1;
        }
        proof {
            assert forall|k: ExpressionIdentifier| self.has(k) implies key_index(k, w, h) < c by {}
        }
        r
    }
}

proof fn lemma_sound_empty(g: &Grid, slots: Seq<Option<(ExpressionIdentifier, Expression)>>, pending: Seq<ExpressionIdentifier>, w: nat, h: nat)
    requires
        forall|c: int| 0 <= c < slots.len() ==> slots[c] is None,
    ensures
        slots_sound(g, slots, pending, w, h),
{
    reveal(slots_sound);
}

proof fn lemma_sound_skip(g: &Grid, slots: Seq<Option<(ExpressionIdentifier, Expression)>>, pending: Seq<ExpressionIdentifier>, w: nat, h: nat)
    requires
        slots_sound(g, slots, pending, w, h),
        pending.len() > 0,
        slot_has(slots, pending.last(), w, h),
    ensures
        slots_sound(g, slots, pending.drop_last(), w, h),
{
    reveal(slots_sound);
    assert forall|c: int| 0 <= c < slots.len() implies (#[trigger] slots[c] matches Some(entry) ==> {
        &&& bounded_key(entry.0, w, h)
        &&& key_index(entry.0, w, h) == c
        &&& valid_block(g, entry.0, entry.1)
        &&& forall|i: int| 0 <= i < successors(entry.1.next).len() ==> {
            let s = #[trigger] successors(entry.1.next)[i];
            bounded_key(s, w, h) && (slot_has(slots, s, w, h) || pending.drop_last().contains(s))
        }
    }) by {
        if let Some(entry) = slots[c] {
            assert forall|i: int| 0 <= i < successors(entry.1.next).len() implies {
                let s = #[trigger] successors(entry.1.next)[i];
                bounded_key(s, w, h) && (slot_has(slots, s, w, h) || pending.drop_last().contains(s))
            } by {
                let s = successors(entry.1.next)[i];
                if !slot_has(slots, s, w, h) {
                    assert(pending.contains(s));
                    let j = choose|j: int| 0 <= j < pending.len() && pending[j] == s;
                    if j == pending.len() - 1 {
                        assert(false);
                    }
                    assert(pending.drop_last()[j] == s);
                }
            }
        }
    }
}

proof fn lemma_sound_insert(
    g: &Grid,
    slots: Seq<Option<(ExpressionIdentifier, Expression)>>,
    pending: Seq<ExpressionIdentifier>,
    b: Expression,
    w: nat,
    h: nat,
)
    requires
        slots_sound(g, slots, pending, w, h),
        pending.len() > 0,
        bounded_key(pending.last(), w, h),
        0 <= key_index(pending.last(), w, h) < slots.len(),
        slots[key_index(pending.last(), w, h)] is None,
        valid_block(g, pending.last(), b),
        forall|i: int| 0 <= i < successors(b.next).len() ==> bounded_key(#[trigger] successors(b.next)[i], w, h),
    ensures
        slots_sound(
            g,
            slots.update(key_index(pending.last(), w, h), Some((pending.last(), b))),
            pending.drop_last() + successors(b.next),
            w,
            h,
        ),
{
    reveal(slots_sound);
    let k = pending.last();
    let idx = key_index(k, w, h);
    let s2 = slots.update(idx, Some((k, b)));
    let other = pending.drop_last() + successors(b.next);
    assert forall|key: ExpressionIdentifier| slot_has(slots, key, w, h) implies slot_has(s2, key, w, h) by {
        assert(key_index(key, w, h) != idx);
    }
    assert forall|c: int| 0 <= c < s2.len() implies (#[trigger] s2[c] matches Some(entry) ==> {
        &&& bounded_key(entry.0, w, h)
        &&& key_index(entry.0, w, h) == c
        &&& valid_block(g, entry.0, entry.1)
        &&& forall|i: int| 0 <= i < successors(entry.1.next).len() ==> {
            let s = #[trigger] successors(entry.1.next)[i];
            bounded_key(s, w, h) && (slot_has(s2, s, w, h) || other.contains(s))
        }
    }) by {
        if c == idx {
            assert forall|i: int| 0 <= i < successors(b.next).len() implies {
                let s = #[trigger] successors(b.next)[i];
                bounded_key(s, w, h) && (slot_has(s2, s, w, h) || other.contains(s))
            } by {
                assert(other[pending.len() - 1 + i] == successors(b.next)[i]);
            }
        } else if let Some(entry) = slots[c] {
            assert(s2[c] == slots[c]);
            assert forall|i: int| 0 <= i < successors(entry.1.next).len() implies {
                let s = #[trigger] successors(entry.1.next)[i];
                bounded_key(s, w, h) && (slot_has(s2, s, w, h) || other.contains(s))
            } by {
                let s = successors(entry.1.next)[i];
                if !slot_has(slots, s, w, h) {
                    assert(pending.contains(s));
                    let j = choose|j: int| 0 <= j < pending.len() && pending[j] == s;
                    if j == pending.len() - 1 {
                        assert(slot_has(s2, s, w, h));
                    } else {
                        assert(other[j] == s);
                    }
                }
            }
        }
    }
}

proof fn lemma_sound_closed(g: &Grid, slots: Seq<Option<(ExpressionIdentifier, Expression)>>, w: nat, h: nat)
    requires
        slots_sound(g, slots, Seq::empty(), w, h),
    ensures
        forall|c: int| 0 <= c < slots.len() ==> (#[trigger] slots[c] matches Some(entry) ==> {
            &&& bounded_key(entry.0, w, h)
            &&& key_index(entry.0, w, h) == c
            &&& valid_block(g, entry.0, entry.1)
            &&& forall|i: int| 0 <= i < successors(entry.1.next).len() ==>
                slot_has(slots, #[trigger] successors(entry.1.next)[i], w, h)
        }),
{
    reveal(slots_sound);
}

/// The key of the first block of a program whose start glyph is at `p`:
/// the cell east of it, entered eastwards in forward mode.
pub open spec fn start_key_of(p: Position) -> ExpressionIdentifier {
    ExpressionIdentifier { position: p.spec_step(Direction::East), direction: Direction::East, inverse_mode: false }
}

/// Finds the start glyph and builds the program graph of every block
/// reachable from the cell east of it, entered eastwards in forward mode.
/// It succeeds exactly when there is one start glyph and no walk from a
/// reachable key fails to lex.
pub fn parse_code(code: &Grid) -> (r: Result<ExpressionTree, CompileError>)
    requires
        table_size(code.spec_width(), code.rows().len()) <= usize::MAX,
    ensures
        match r {
            Ok(t) => {
                &&& exists|p: Position| is_start(code, p) && t.start_key() == start_key_of(p)
                    && forall|other: Position| is_start(code, other) ==> other == p
                &&& t.has(t.start_key())
                &&& t.closed()
                &&& forall|k: ExpressionIdentifier| t.has(k) ==> valid_block(code, k, #[trigger] t.block(k))
                &&& forall|k: ExpressionIdentifier| #[trigger] t.has(k) ==> reachable(code, t.start_key(), k)
            },
            Err(CompileError::MissingStart) => forall|p: Position| !is_start(code, p),
            Err(CompileError::MultipleStart) => exists|first: Position, other: Position|
                first != other && is_start(code, first) && is_start(code, other),
            Err(e) => exists|p: Position, k: ExpressionIdentifier|
                is_start(code, p) && reachable(code, start_key_of(p), k) && walk_fails(code, k, e),
        },
        (forall|p: Position| !is_start(code, p)) ==> r == Err::<ExpressionTree, CompileError>(CompileError::MissingStart),
        (exists|first: Position, other: Position| first != other && is_start(code, first) && is_start(code, other))
            ==> r == Err::<ExpressionTree, CompileError>(CompileError::MultipleStart),
        (exists|p: Position| {
            &&& is_start(code, p)
            &&& forall|other: Position| is_start(code, other) ==> other == p
            &&& forall|k: ExpressionIdentifier, e: CompileError| reachable(code, start_key_of(p), k) ==> !walk_fails(code, k, e)
        }) ==> r is Ok,
{
    let sp = match get_start_pos(code) {
        Ok(p) => p,
        Err(e) => return Err(e),
    };
    let width = code.width();
    let height = code.height();
    let ghost w = width as nat;
    let ghost h = height as nat;
    proof { lemma_table_parts(w, h); }
    let size = (width + 2) * (height + 2) * 8;
    let mut slots: Vec<Option<(ExpressionIdentifier, Expression)>> = Vec::new();
    while slots.len() < size
        invariant
            slots@.len() <= size,
            forall|c: int| 0 <= c < slots@.len() ==> slots@[c] is None,
        decreases size - slots@.len(),
    {
        slots.push(None);
    }
    proof { lemma_step_bounded(code, sp, Direction::East, false, w, h); }
    let start = ExpressionIdentifier::new(false, sp.step(Direction::East), Direction::East);
    let mut pending: Vec<ExpressionIdentifier> = Vec::new();
    pending.push(start);
    proof {
        lemma_sound_empty(code, slots@, pending@, w, h);
        assert(pending@[0] == start);
        lemma_reachable_start(code, start);
    }
    while pending.len() > 0
        invariant
            width == code.spec_width(),
            height == code.rows().len(),
            w == width,
            h == height,
            size == table_size(w, h),
            size <= usize::MAX,
            slots@.len() == size,
            slots_sound(code, slots@, pending@, w, h),
            forall|i: int| 0 <= i < pending@.len() ==> bounded_key(#[trigger] pending@[i], w, h),
            slot_has(slots@, start, w, h) || pending@.contains(start),
            is_start(code, sp),
            forall|other: Position| is_start(code, other) ==> other == sp,
            start == start_key_of(sp),
            forall|c: int| 0 <= c < slots@.len() ==> (#[trigger] slots@[c] matches Some(entry)
                ==> reachable(code, start, entry.0)),
            forall|i: int| 0 <= i < pending@.len() ==> reachable(code, start, #[trigger] pending@[i]),
        decreases count_none(slots@), pending@.len(),
    {
        let ghost before = pending@;
        let k = pending.pop().unwrap();
        proof {
            assert(k == before.last());
            assert(pending@ == before.drop_last());
            assert(bounded_key(k, w, h) && before[before.len() - 1] == k);
        }
        let idx = table_index(k, width, height);
        let filled = match &slots[idx] {
            Some(_) => true,
            None => false,
        };
        if filled {
            proof {
                reveal(slots_sound);
                let entry = slots@[idx as int]->Some_0;
                lemma_key_index_unique(entry.0, k, w, h);
                lemma_sound_skip(code, slots@, before, w, h);
                if !slot_has(slots@, start, w, h) {
                    let j = choose|j: int| 0 <= j < before.len() && before[j] == start;
                    assert(pending@[j] == start);
                }
                assert forall|i: int| 0 <= i < pending@.len() implies reachable(code, start, #[trigger] pending@[i]) by {
                    assert(pending@[i] == before[i]);
                }
            }
        } else {
            let b = match parse_expression(code, k.position, k.direction, k.inverse_mode) {
                Ok(b) => b,
                Err(e) => {
                    proof {
                        lemma_walk_fails_kind(code, k, e);
                        assert(is_start(code, sp) && reachable(code, start_key_of(sp), k) && walk_fails(code, k, e));
                    }
                    return Err(e);
                },
            };
            let next = b.next;
            let ghost old_slots = slots@;
            let ghost bg = b;
            match next {
                Branches::Halt => {},
                Branches::One(k1) => {
                    pending.push(k1);
                },
                Branches::Two(k1, k2) => {
                    pending.push(k1);
                    pending.push(k2);
                },
            }
            proof {
                assert(pending@ =~= before.drop_last() + successors(next));
                assert(reachable(code, start, before[before.len() - 1]));
                assert forall|i: int| 0 <= i < pending@.len() implies reachable(code, start, #[trigger] pending@[i]) by {
                    if i < before.len() - 1 {
                        assert(pending@[i] == before[i]);
                    } else {
                        lemma_reachable_step(code, start, k, bg, i - (before.len() - 1));
                    }
                }
                lemma_count_none_fill(slots@, idx as int, (k, bg));
                lemma_sound_insert(code, old_slots, before, bg, w, h);
            }
            slots.set(idx, Some((k, b)));
            proof {
                assert(slots@ == old_slots.update(idx as int, Some((k, bg))));
                assert forall|i: int| 0 <= i < pending@.len() implies bounded_key(#[trigger] pending@[i], w, h) by {
                    if i < before.len() - 1 {
                        assert(pending@[i] == before[i]);
                    } else {
                        assert(pending@[i] == successors(next)[i - (before.len() - 1)]);
                    }
                }
                if !slot_has(old_slots, start, w, h) && start != k {
                    let j = choose|j: int| 0 <= j < before.len() && before[j] == start;
                    assert(j != before.len() - 1);
                    assert(pending@[j] == start);
                }
                if slot_has(old_slots, start, w, h) {
                    assert(key_index(start, w, h) != idx);
                }
                assert forall|c: int| 0 <= c < slots@.len() implies (#[trigger] slots@[c] matches Some(entry)
                    ==> reachable(code, start, entry.0)) by {
                    if c != idx {
                        assert(slots@[c] == old_slots[c]);
                    }
                }
            }
        }
    }
    proof {
        assert(pending@ =~= Seq::<ExpressionIdentifier>::empty());
        lemma_sound_closed(code, slots@, w, h);
    }
    let t = ExpressionTree { slots, width, height, start };
    proof {
        assert(t.has(t.start));
        assert forall|k: ExpressionIdentifier, i: int| t.has(k) && 0 <= i < successors(t.block(k).next).len()
            implies t.has(#[trigger] successors(t.block(k).next)[i]) by {
            let c = key_index(k, w, h);
            assert(t.slots@[c] is Some);
        }
        assert forall|k: ExpressionIdentifier| t.has(k) implies valid_block(code, k, #[trigger] t.block(k)) by {
            let c = key_index(k, w, h);
            assert(t.slots@[c] is Some);
        }
        assert forall|k: ExpressionIdentifier| #[trigger] t.has(k) implies reachable(code, t.start_key(), k) by {
            let c = key_index(k, w, h);
            assert(t.slots@[c] is Some);
        }
    }
    Ok(t)
}

} // verus!
