use vstd::prelude::*;

verus! {

/// How many values each stack of the target machine holds.
pub const STACK_CAPACITY: usize = 40;

/// A primitive operation of the target machine, which has a main stack and
/// a control stack of 32-bit signed integers.
#[derive(Clone, Copy, Debug, PartialEq, Eq, Structural)]
pub enum Primitive {
    /// XOR the top of the main stack with a literal.
    Number(u32),
    PushZero,
    PopZero,
    PopMainToControl,
    PopControlToMain,
    SwapStacks,
    Write,
    Read,
    Increment,
    Decrement,
    Add,
    Subtract,
    Divide,
    Multiply,
    Not,
    And,
    Or,
    Xor,
    RotateLeft,
    RotateRight,
    ToggleControl,
    EqualityCheck,
    LessThanCheck,
    GreaterThanCheck,
    SwapTop,
    Dig,
    Bury,
    Flip,
    SwapLower,
    Over,
    Under,
    Duplicate,
    Unduplicate,
    /// Push a flag (1 for true, 0 for false) onto the control stack.
    PushControl(bool),
    /// Replace the top of the control stack by 1 if it is 0, else by 0.
    FlipControl,
}

/// The primitive that runs `p` backwards.
pub open spec fn dual(p: Primitive) -> Primitive {
    match p {
        Primitive::PushZero => Primitive::PopZero,
        Primitive::PopZero => Primitive::PushZero,
        Primitive::PopMainToControl => Primitive::PopControlToMain,
        Primitive::PopControlToMain => Primitive::PopMainToControl,
        Primitive::Increment => Primitive::Decrement,
        Primitive::Decrement => Primitive::Increment,
        Primitive::Add => Primitive::Subtract,
        Primitive::Subtract => Primitive::Add,
        Primitive::Divide => Primitive::Multiply,
        Primitive::Multiply => Primitive::Divide,
        Primitive::RotateLeft => Primitive::RotateRight,
        Primitive::RotateRight => Primitive::RotateLeft,
        Primitive::Dig => Primitive::Bury,
        Primitive::Bury => Primitive::Dig,
        Primitive::Over => Primitive::Under,
        Primitive::Under => Primitive::Over,
        Primitive::Duplicate => Primitive::Unduplicate,
        Primitive::Unduplicate => Primitive::Duplicate,
        Primitive::PushControl(b) => Primitive::PushControl(!b),
        _ => p,
    }
}

/// The primitive that runs `p` backwards, as [`dual`] gives it.
pub fn dual_of(p: Primitive) -> (r: Primitive)
    ensures
        r == dual(p),
{
    match p {
        Primitive::PushZero => Primitive::PopZero,
        Primitive::PopZero => Primitive::PushZero,
        Primitive::PopMainToControl => Primitive::PopControlToMain,
        Primitive::PopControlToMain => Primitive::PopMainToControl,
        Primitive::Increment => Primitive::Decrement,
        Primitive::Decrement => Primitive::Increment,
        Primitive::Add => Primitive::Subtract,
        Primitive::Subtract => Primitive::Add,
        Primitive::Divide => Primitive::Multiply,
        Primitive::Multiply => Primitive::Divide,
        Primitive::RotateLeft => Primitive::RotateRight,
        Primitive::RotateRight => Primitive::RotateLeft,
        Primitive::Dig => Primitive::Bury,
        Primitive::Bury => Primitive::Dig,
        Primitive::Over => Primitive::Under,
        Primitive::Under => Primitive::Over,
        Primitive::Duplicate => Primitive::Unduplicate,
        Primitive::Unduplicate => Primitive::Duplicate,
        Primitive::PushControl(b) => Primitive::PushControl(!b),
        _ => p,
    }
}

/// Running a primitive backwards twice runs it forwards.
pub proof fn lemma_dual_involutive(p: Primitive)
    ensures
        dual(dual(p)) == p,
{
}

/// The stack effect of `p` is modelled: input, output, and the operations
/// on which the target machine aborts (and, or, xor, flip, and the
/// control toggle glyph) are not.
pub open spec fn modelled(p: Primitive) -> bool {
    !(p is Write || p is Read || p is And || p is Or || p is Xor || p is Flip || p is ToggleControl)
}

/// Truncating division, as the target's signed division rounds.
pub open spec fn trunc_div(y: int, x: int) -> int {
    if y == 0 {
        0
    } else if y > 0 && x > 0 {
        y / x
    } else if y < 0 && x < 0 {
        (-y) / (-x)
    } else if y < 0 {
        -((-y) / x)
    } else {
        -(y / (-x))
    }
}

/// The remainder that goes with [`trunc_div`]: it has the sign of `y`.
pub open spec fn trunc_rem(y: int, x: int) -> int {
    y - x * trunc_div(y, x)
}

/// `y` rotated left by `x` bits, taken modulo 32.
pub open spec fn rotl(y: i32, x: i32) -> i32 {
    let s = ((x as u32) % 32) as u32;
    let v = y as u32;
    (if s == 0 { v } else { (v << s) | (v >> (32 - s) as u32) }) as i32
}

/// `y` rotated right by `x` bits, taken modulo 32.
pub open spec fn rotr(y: i32, x: i32) -> i32 {
    let s = ((x as u32) % 32) as u32;
    let v = y as u32;
    (if s == 0 { v } else { (v >> s) | (v << (32 - s) as u32) }) as i32
}

/// The flag `v` toggled: 0 becomes 1, anything else 0.
pub open spec fn toggled(v: i32) -> i32 {
    if v == 0 { 1 } else { 0 }
}

/// The value `i` places below the top of `s`.
pub open spec fn peek(s: Seq<i32>, i: int) -> i32 {
    s[s.len() - 1 - i]
}

/// `s` without its top `n` values.
pub open spec fn below(s: Seq<i32>, n: int) -> Seq<i32> {
    s.take(s.len() - n)
}

/// The control stack with its top value toggled when `cond` holds.
pub open spec fn toggle_if(c: Seq<i32>, cond: bool) -> Seq<i32> {
    if cond { below(c, 1).push(toggled(peek(c, 0))) } else { c }
}

/// `p` can run on main stack `m` and control stack `c`: the values it pops
/// are there, what it pushes fits, and a division has a defined result.
pub open spec fn enabled(p: Primitive, m: Seq<i32>, c: Seq<i32>) -> bool {
    let cap = STACK_CAPACITY as int;
    &&& m.len() <= cap
    &&& c.len() <= cap
    &&& match p {
        Primitive::Number(_) | Primitive::PopZero | Primitive::Increment | Primitive::Decrement
        | Primitive::Not | Primitive::Unduplicate => m.len() >= 1,
        Primitive::PushZero => m.len() < cap,
        Primitive::PopMainToControl => m.len() >= 1 && c.len() < cap,
        Primitive::PopControlToMain => c.len() >= 1 && m.len() < cap,
        Primitive::SwapStacks => m.len() >= 1 && c.len() >= 1,
        Primitive::Add | Primitive::Subtract | Primitive::RotateLeft | Primitive::RotateRight
        | Primitive::SwapTop => m.len() >= 2,
        Primitive::Divide => m.len() >= 2 && m.len() < cap && peek(m, 0) != 0
            && !(peek(m, 1) == i32::MIN && peek(m, 0) == -1),
        Primitive::Multiply | Primitive::Dig | Primitive::Bury | Primitive::SwapLower
        | Primitive::Under => m.len() >= 3,
        Primitive::EqualityCheck | Primitive::LessThanCheck | Primitive::GreaterThanCheck =>
            m.len() >= 2 && c.len() >= 1,
        Primitive::Over => m.len() >= 2 && m.len() < cap,
        Primitive::Duplicate => m.len() >= 1 && m.len() < cap,
        Primitive::PushControl(_) => c.len() < cap,
        Primitive::FlipControl => c.len() >= 1,
        _ => false,
    }
}

/// The stacks after `p` runs on main stack `m` and control stack `c`.
pub open spec fn apply(p: Primitive, m: Seq<i32>, c: Seq<i32>) -> (Seq<i32>, Seq<i32>) {
    let x = peek(m, 0);
    let y = peek(m, 1);
    let z = peek(m, 2);
    match p {
        Primitive::Number(n) => (below(m, 1).push(x ^ (n as i32)), c),
        Primitive::PushZero => (m.push(0), c),
        Primitive::PopZero | Primitive::Unduplicate => (below(m, 1), c),
        Primitive::PopMainToControl => (below(m, 1), c.push(x)),
        Primitive::PopControlToMain => (m.push(peek(c, 0)), below(c, 1)),
        Primitive::SwapStacks => (below(m, 1).push(peek(c, 0)), below(c, 1).push(x)),
        Primitive::Increment => (below(m, 1).push(vstd::wrapping::i32_specs::wrapping_add(x, 1)), c),
        Primitive::Decrement => (below(m, 1).push(vstd::wrapping::i32_specs::wrapping_sub(x, 1)), c),
        Primitive::Add => (below(m, 2).push(vstd::wrapping::i32_specs::wrapping_add(y, x)).push(x), c),
        Primitive::Subtract => (below(m, 2).push(vstd::wrapping::i32_specs::wrapping_sub(y, x)).push(x), c),
        Primitive::Divide => (
            below(m, 2).push(trunc_div(y as int, x as int) as i32).push(trunc_rem(y as int, x as int) as i32).push(x),
            c,
        ),
        Primitive::Multiply => (
            below(m, 3).push(vstd::wrapping::i32_specs::wrapping_add(vstd::wrapping::i32_specs::wrapping_mul(x, z), y)).push(x),
            c,
        ),
        Primitive::Not => (below(m, 1).push(x ^ -1i32), c),
        Primitive::RotateLeft => (below(m, 2).push(rotl(y, x)).push(x), c),
        Primitive::RotateRight => (below(m, 2).push(rotr(y, x)).push(x), c),
        Primitive::EqualityCheck => (m, toggle_if(c, y == x)),
        Primitive::LessThanCheck => (m, toggle_if(c, y < x)),
        Primitive::GreaterThanCheck => (m, toggle_if(c, y > x)),
        Primitive::SwapTop => (below(m, 2).push(x).push(y), c),
        Primitive::Dig => (below(m, 3).push(y).push(x).push(z), c),
        Primitive::Bury => (below(m, 3).push(x).push(z).push(y), c),
        Primitive::SwapLower => (below(m, 3).push(y).push(z).push(x), c),
        Primitive::Over => (m.push(y), c),
        Primitive::Under => (below(m, 1), c),
        Primitive::Duplicate => (m.push(x), c),
        Primitive::PushControl(b) => (m, c.push(if b { 1i32 } else { 0i32 })),
        Primitive::FlipControl => (m, toggle_if(c, true)),
        _ => (m, c),
    }
}

/// Truncating division and its remainder rebuild the dividend; the
/// remainder has the sign of the dividend and is smaller than the divisor,
/// and the quotient is no larger than the dividend.
proof fn lemma_trunc_div(y: int, x: int)
    requires
        x != 0,
    ensures
        y == x * trunc_div(y, x) + trunc_rem(y, x),
        y >= 0 ==> 0 <= trunc_rem(y, x) <= y,
        y < 0 ==> y <= trunc_rem(y, x) <= 0,
        x > 0 ==> -x < trunc_rem(y, x) < x,
        x < 0 ==> x < trunc_rem(y, x) < -x,
        trunc_div(y, x) >= 0 ==> trunc_div(y, x) * (if x > 0 { x } else { -x }) <= (if y >= 0 { y } else { -y }),
        trunc_div(y, x) < 0 ==> -trunc_div(y, x) * (if x > 0 { x } else { -x }) <= (if y >= 0 { y } else { -y }),
{
    let ay = if y >= 0 { y } else { -y };
    let ax = if x > 0 { x } else { -x };
    vstd::arithmetic::div_mod::lemma_fundamental_div_mod(ay, ax);
    vstd::arithmetic::div_mod::lemma_mod_pos_bound(ay, ax);
    vstd::arithmetic::div_mod::lemma_div_pos_is_pos(ay, ax);
    let q = ay / ax;
    let r = ay % ax;
    assert(q * ax <= ay) by (nonlinear_arith)
        requires ay == ax * q + r, 0 <= r;
    if y == 0 {
    } else if y > 0 && x > 0 {
    } else if y < 0 && x < 0 {
        assert(trunc_div(y, x) == q);
        assert(x * q == -(ax * q)) by (nonlinear_arith) requires ax == -x;
    } else if y < 0 {
        assert(trunc_div(y, x) == -q);
        assert(x * (-q) == -(ax * q)) by (nonlinear_arith) requires ax == x;
        assert(-(-q) * ax == q * ax);
    } else {
        assert(trunc_div(y, x) == -q);
        assert(x * (-q) == ax * q) by (nonlinear_arith) requires ax == -x;
        assert(-(-q) * ax == q * ax);
    }
}

proof fn lemma_crop_in_range(v: int)
    requires
        i32::MIN <= v <= i32::MAX,
    ensures
        vstd::wrapping::i32_specs::signed_crop(v) == v,
{
    if v < 0 {
        assert((v % 0x1_0000_0000) == v + 0x1_0000_0000);
    } else {
        assert((v % 0x1_0000_0000) == v);
    }
}

/// Dividing `y` by `x` is defined in 32 bits, and multiplying back gives `y`.
proof fn lemma_divide_exact(y: i32, x: i32)
    requires
        x != 0,
        !(y == i32::MIN && x == -1),
    ensures
        i32::MIN <= trunc_div(y as int, x as int) <= i32::MAX,
        i32::MIN <= trunc_rem(y as int, x as int) <= i32::MAX,
        i32::MIN <= x * trunc_div(y as int, x as int) <= i32::MAX,
        vstd::wrapping::i32_specs::wrapping_add(
            vstd::wrapping::i32_specs::wrapping_mul(x, trunc_div(y as int, x as int) as i32),
            trunc_rem(y as int, x as int) as i32,
        ) == y,
{
    lemma_trunc_div(y as int, x as int);
    let q = trunc_div(y as int, x as int);
    let r = trunc_rem(y as int, x as int);
    let ax: int = if x > 0 { x as int } else { -x };
    let ay: int = if y >= 0 { y as int } else { -y };
    if q >= 0 {
        assert(q * ax <= ay);
        if ax >= 2 {
            assert(2 * q <= ay) by (nonlinear_arith) requires q * ax <= ay, ax >= 2, q >= 0;
        } else {
            assert(q * ax == q) by (nonlinear_arith) requires ax == 1;
            if q > i32::MAX {
                assert(y == i32::MIN);
                if x == 1 {
                    assert(q < 0);
                }
            }
        }
    } else {
        assert(-q * ax <= ay);
        assert(-q <= -q * ax) by (nonlinear_arith) requires ax >= 1, q < 0;
    }
    assert(x * q == y - r);
    lemma_crop_in_range(x * q);
}

/// The machine's two stacks, top at the end.
pub struct StackMachine {
    pub main: Vec<i32>,
    pub control: Vec<i32>,
}

fn pop_value(s: &mut Vec<i32>) -> (v: i32)
    requires
        old(s)@.len() >= 1,
    ensures
        v == peek(old(s)@, 0),
        final(s)@ == below(old(s)@, 1),
{
    proof { assert(old(s)@.drop_last() =~= below(old(s)@, 1)); }
    s.pop().unwrap()
}

impl StackMachine {
    /// A machine with both stacks empty.
    pub fn new() -> (r: StackMachine)
        ensures
            r.main@ == Seq::<i32>::empty(),
            r.control@ == Seq::<i32>::empty(),
    {
        StackMachine { main: Vec::new(), control: Vec::new() }
    }

    fn toggle_control(&mut self)
        requires
            old(self).control@.len() >= 1,
        ensures
            final(self).control@ == toggle_if(old(self).control@, true),
            final(self).main@ == old(self).main@,
    {
        let v = pop_value(&mut self.control);
        self.control.push(if v == 0 { 1 } else { 0 });
    }

    /// Runs one primitive.
    #[verifier::rlimit(60)]
    pub fn apply(&mut self, p: Primitive)
        requires
            modelled(p),
            enabled(p, old(self).main@, old(self).control@),
        ensures
            (final(self).main@, final(self).control@) == apply(p, old(self).main@, old(self).control@),
    {
        let ghost m = self.main@;
        let ghost c = self.control@;
        match p {
            Primitive::Number(n) => {
                let x = pop_value(&mut self.main);
                self.main.push(x ^ (n as i32));
            },
            Primitive::PushZero => {
                self.main.push(0);
            },
            Primitive::PopZero | Primitive::Unduplicate | Primitive::Under => {
                let _ = pop_value(&mut self.main);
            },
            Primitive::PopMainToControl => {
                let x = pop_value(&mut self.main);
                self.control.push(x);
            },
            Primitive::PopControlToMain => {
                let x = pop_value(&mut self.control);
                self.main.push(x);
            },
            Primitive::SwapStacks => {
                let x = pop_value(&mut self.main);
                let v = pop_value(&mut self.control);
                self.main.push(v);
                self.control.push(x);
            },
            Primitive::Increment => {
                let x = pop_value(&mut self.main);
                self.main.push(x.wrapping_add(1));
            },
            Primitive::Decrement => {
                let x = pop_value(&mut self.main);
                self.main.push(x.wrapping_sub(1));
            },
            Primitive::Add => {
                let x = pop_value(&mut self.main);
                let y = pop_value(&mut self.main);
                proof { assert(below(below(m, 1), 1) =~= below(m, 2)); }
                self.main.push(y.wrapping_add(x));
                self.main.push(x);
            },
            Primitive::Subtract => {
                let x = pop_value(&mut self.main);
                let y = pop_value(&mut self.main);
                proof { assert(below(below(m, 1), 1) =~= below(m, 2)); }
                self.main.push(y.wrapping_sub(x));
                self.main.push(x);
            },
            Primitive::Divide => {
                let x = pop_value(&mut self.main);
                let y = pop_value(&mut self.main);
                proof {
                    assert(below(below(m, 1), 1) =~= below(m, 2));
                    lemma_divide_exact(y, x);
                }
                let q = y.checked_div(x).unwrap();
                proof { assert(q == trunc_div(y as int, x as int)); }
                let r = y - x * q;
                self.main.push(q);
                self.main.push(r);
                self.main.push(x);
            },
            Primitive::Multiply => {
                let x = pop_value(&mut self.main);
                let rem = pop_value(&mut self.main);
                let div = pop_value(&mut self.main);
                proof { assert(below(below(below(m, 1), 1), 1) =~= below(m, 3)); }
                self.main.push(x.wrapping_mul(div).wrapping_add(rem));
                self.main.push(x);
            },
            Primitive::Not => {
                let x = pop_value(&mut self.main);
                self.main.push(x ^ -1i32);
            },
            Primitive::RotateLeft | Primitive::RotateRight => {
                let x = pop_value(&mut self.main);
                let y = pop_value(&mut self.main);
                proof { assert(below(below(m, 1), 1) =~= below(m, 2)); }
                let s: u32 = (x as u32) % 32;
                let v = y as u32;
                let left = match p {
                    Primitive::RotateLeft => true,
                    _ => false,
                };
                let rotated: u32 = if s == 0 {
                    v
                } else if left {
                    (v << s) | (v >> (32 - s))
                } else {
                    (v >> s) | (v << (32 - s))
                };
                self.main.push(rotated as i32);
                self.main.push(x);
            },
            Primitive::EqualityCheck | Primitive::LessThanCheck | Primitive::GreaterThanCheck => {
                let len = self.main.len();
                let x = self.main[len - 1];
                let y = self.main[len - 2];
                let cond = match p {
                    Primitive::EqualityCheck => y == x,
                    Primitive::LessThanCheck => y < x,
                    _ => y > x,
                };
                if cond {
                    self.toggle_control();
                }
            },
            Primitive::SwapTop => {
                let x = pop_value(&mut self.main);
                let y = pop_value(&mut self.main);
                proof { assert(below(below(m, 1), 1) =~= below(m, 2)); }
                self.main.push(x);
                self.main.push(y);
            },
            Primitive::Dig | Primitive::Bury | Primitive::SwapLower => {
                let x = pop_value(&mut self.main);
                let y = pop_value(&mut self.main);
                let z = pop_value(&mut self.main);
                proof { assert(below(below(below(m, 1), 1), 1) =~= below(m, 3)); }
                match p {
                    Primitive::Dig => {
                        self.main.push(y);
                        self.main.push(x);
                        self.main.push(z);
                    },
                    Primitive::Bury => {
                        self.main.push(x);
                        self.main.push(z);
                        self.main.push(y);
                    },
                    _ => {
                        self.main.push(y);
                        self.main.push(z);
                        self.main.push(x);
                    },
                }
            },
            Primitive::Over => {
                let len = self.main.len();
                let y = self.main[len - 2];
                self.main.push(y);
            },
            Primitive::Duplicate => {
                let len = self.main.len();
                let x = self.main[len - 1];
                self.main.push(x);
            },
            Primitive::PushControl(b) => {
                self.control.push(if b { 1 } else { 0 });
            },
            Primitive::FlipControl => {
                self.toggle_control();
            },
            _ => {},
        }
    }
}

/// The stacks are in a state from which running `p` and then its dual
/// comes back: beyond [`enabled`], an un-duplicate needs two equal values on top,
/// an under needs the top equal to the third value, a multiply needs a
/// quotient, remainder and divisor that a division could have produced,
/// a pop-zero needs a zero on top,
/// and the control flag that a comparison may toggle must be 0 or 1.
/// Pushing a branch flag is not undone by its dual, which pushes the
/// opposite flag where a reversed branch merges.
pub open spec fn restorable(p: Primitive, m: Seq<i32>, c: Seq<i32>) -> bool {
    match p {
        Primitive::PopZero => peek(m, 0) == 0,
        Primitive::Unduplicate => m.len() >= 2 && peek(m, 0) == peek(m, 1),
        Primitive::Under => peek(m, 0) == peek(m, 2),
        Primitive::Multiply => {
            let x = peek(m, 0) as int;
            let v = x * peek(m, 2) + peek(m, 1);
            &&& x != 0
            &&& i32::MIN <= v <= i32::MAX
            &&& !(v == i32::MIN && x == -1)
            &&& trunc_div(v, x) == peek(m, 2)
            &&& trunc_rem(v, x) == peek(m, 1)
        },
        Primitive::EqualityCheck | Primitive::LessThanCheck | Primitive::GreaterThanCheck
        | Primitive::FlipControl => peek(c, 0) == 0 || peek(c, 0) == 1,
        Primitive::PushControl(_) => false,
        _ => true,
    }
}

proof fn lemma_wrapping_round_trip(a: i32, b: i32)
    ensures
        vstd::wrapping::i32_specs::wrapping_sub(vstd::wrapping::i32_specs::wrapping_add(a, b), b) == a,
        vstd::wrapping::i32_specs::wrapping_add(vstd::wrapping::i32_specs::wrapping_sub(a, b), b) == a,
{
}

proof fn lemma_rotate_round_trip(y: i32, x: i32)
    ensures
        rotr(rotl(y, x), x) == y,
        rotl(rotr(y, x), x) == y,
{
    let s = ((x as u32) % 32) as u32;
    let v = y as u32;
    assert(s < 32);
    if s == 0 {
        assert(((v as i32) as u32) == v) by (bit_vector);
        assert(((y as u32) as i32) == y) by (bit_vector);
    } else {
        let l = (v << s) | (v >> (32 - s) as u32);
        let r = (v >> s) | (v << (32 - s) as u32);
        assert(((l as i32) as u32) == l) by (bit_vector);
        assert(((r as i32) as u32) == r) by (bit_vector);
        assert(((l >> s) | (l << (32 - s) as u32)) == v) by (bit_vector)
            requires l == (v << s) | (v >> (32 - s) as u32), 0 < s < 32;
        assert(((r << s) | (r >> (32 - s) as u32)) == v) by (bit_vector)
            requires r == (v >> s) | (v << (32 - s) as u32), 0 < s < 32;
        assert(((v as i32) as u32) == v) by (bit_vector);
        assert(((y as u32) as i32) == y) by (bit_vector);
        assert(v == y as u32);
    }
}

proof fn lemma_xor_twice(x: i32, n: i32)
    ensures
        (x ^ n) ^ n == x,
{
    assert((x ^ n) ^ n == x) by (bit_vector);
}

/// Running a modelled primitive and then its dual restores both stacks
/// exactly, from any state where the primitive can run and that the dual
/// can undo.
#[verifier::rlimit(100)]
#[verifier::spinoff_prover]
pub proof fn lemma_inverse_restores(p: Primitive, m: Seq<i32>, c: Seq<i32>)
    requires
        modelled(p),
        enabled(p, m, c),
        restorable(p, m, c),
    ensures
        enabled(dual(p), apply(p, m, c).0, apply(p, m, c).1),
        apply(dual(p), apply(p, m, c).0, apply(p, m, c).1) == (m, c),
{
    let (m2, c2) = apply(p, m, c);
    let x = peek(m, 0);
    let y = peek(m, 1);
    let z = peek(m, 2);
    match p {
        Primitive::Number(n) => {
            lemma_xor_twice(x, n as i32);
            assert(apply(dual(p), m2, c2).0 =~= m);
        },
        Primitive::PushZero | Primitive::Duplicate | Primitive::Over => {
            assert(apply(dual(p), m2, c2).0 =~= m);
        },
        Primitive::PopZero => {
            assert(apply(dual(p), m2, c2).0 =~= m);
        },
        Primitive::Unduplicate => {
            assert(apply(dual(p), m2, c2).0 =~= m);
        },
        Primitive::Under => {
            assert(apply(dual(p), m2, c2).0 =~= m);
        },
        Primitive::PopMainToControl | Primitive::PopControlToMain | Primitive::SwapStacks => {
            assert(apply(dual(p), m2, c2).0 =~= m);
            assert(apply(dual(p), m2, c2).1 =~= c);
        },
        Primitive::Increment | Primitive::Decrement => {
            lemma_wrapping_round_trip(x, 1);
            assert(apply(dual(p), m2, c2).0 =~= m);
        },
        Primitive::Add | Primitive::Subtract => {
            lemma_wrapping_round_trip(y, x);
            assert(apply(dual(p), m2, c2).0 =~= m);
        },
        Primitive::Divide => {
            lemma_divide_exact(y, x);
            assert(apply(dual(p), m2, c2).0 =~= m);
        },
        Primitive::Multiply => {
            let v = x * z + y;
            lemma_trunc_div(v, x as int);
            lemma_crop_in_range(x * z);
            lemma_divide_exact(v as i32, x);
            assert(apply(dual(p), m2, c2).0 =~= m);
        },
        Primitive::Not => {
            lemma_xor_twice(x, -1i32);
            assert(apply(dual(p), m2, c2).0 =~= m);
        },
        Primitive::RotateLeft | Primitive::RotateRight => {
            lemma_rotate_round_trip(y, x);
            assert(apply(dual(p), m2, c2).0 =~= m);
        },
        Primitive::EqualityCheck | Primitive::LessThanCheck | Primitive::GreaterThanCheck
        | Primitive::FlipControl => {
            assert(apply(dual(p), m2, c2).1 =~= c);
        },
        Primitive::SwapTop | Primitive::Dig | Primitive::Bury | Primitive::SwapLower => {
            assert(apply(dual(p), m2, c2).0 =~= m);
        },
        _ => {},
    }
}

/// Running the dual of a modelled primitive and then the primitive itself
/// restores both stacks exactly, from any state the dual can run in and
/// that the primitive can undo.
pub proof fn lemma_dual_then_forward(p: Primitive, m: Seq<i32>, c: Seq<i32>)
    requires
        modelled(p),
        enabled(dual(p), m, c),
        restorable(dual(p), m, c),
    ensures
        enabled(p, apply(dual(p), m, c).0, apply(dual(p), m, c).1),
        apply(p, apply(dual(p), m, c).0, apply(dual(p), m, c).1) == (m, c),
{
    lemma_dual_involutive(p);
    lemma_inverse_restores(dual(p), m, c);
}

/// A modelled primitive that is its own dual (a literal XOR, swapping the
/// stacks, the comparisons, not, the swaps of the top values, flipping the
/// control flag) restores both stacks when applied twice.
pub proof fn lemma_self_dual_twice(p: Primitive, m: Seq<i32>, c: Seq<i32>)
    requires
        modelled(p),
        dual(p) == p,
        enabled(p, m, c),
        restorable(p, m, c),
    ensures
        apply(p, apply(p, m, c).0, apply(p, m, c).1) == (m, c),
{
    lemma_inverse_restores(p, m, c);
}

} // verus!
