use vstd::prelude::*;
use vstd::string::*;
use crate::error::CompileError;
use crate::graph::{Branches, Expression, ExpressionTree, Operator};
use crate::lexer::OperatorSymbol;
use crate::machine::{dual, dual_of, Primitive};
use crate::position::{Direction, ExpressionIdentifier};
use crate::text::{decimal, push_decimal, push_str};

verus! {

/// The primitive that instruction `op`, entered travelling in `d`, runs in
/// forward mode; `None` for instructions that only steer the walk, and for
/// string literals, which are lowered on their own.
pub open spec fn forward_primitive(op: OperatorSymbol, d: Direction) -> Option<Primitive> {
    match op {
        OperatorSymbol::Number(n) => Some(Primitive::Number(n)),
        OperatorSymbol::PushZero => Some(Primitive::PushZero),
        OperatorSymbol::PopZero => Some(Primitive::PopZero),
        OperatorSymbol::PopMainToControl => Some(Primitive::PopMainToControl),
        OperatorSymbol::PopControlToMain => Some(Primitive::PopControlToMain),
        OperatorSymbol::SwapStacks => Some(Primitive::SwapStacks),
        OperatorSymbol::Write => Some(Primitive::Write),
        OperatorSymbol::Read => Some(Primitive::Read),
        OperatorSymbol::Increment => Some(Primitive::Increment),
        OperatorSymbol::Decrement => Some(Primitive::Decrement),
        OperatorSymbol::Add => Some(Primitive::Add),
        OperatorSymbol::Subtract => Some(Primitive::Subtract),
        OperatorSymbol::Divide => Some(Primitive::Divide),
        OperatorSymbol::Multiply => Some(Primitive::Multiply),
        OperatorSymbol::Not => Some(Primitive::Not),
        OperatorSymbol::And => Some(Primitive::And),
        OperatorSymbol::Or => Some(Primitive::Or),
        OperatorSymbol::Xor => Some(Primitive::Xor),
        OperatorSymbol::RotateLeft => Some(Primitive::RotateLeft),
        OperatorSymbol::RotateRight => Some(Primitive::RotateRight),
        OperatorSymbol::ToggleControl => Some(Primitive::ToggleControl),
        OperatorSymbol::EqualityCheck => Some(Primitive::EqualityCheck),
        OperatorSymbol::LessThanCheck => Some(Primitive::LessThanCheck),
        OperatorSymbol::GreaterThanCheck => Some(Primitive::GreaterThanCheck),
        OperatorSymbol::SwapTop => Some(Primitive::SwapTop),
        OperatorSymbol::Dig => Some(Primitive::Dig),
        OperatorSymbol::Bury => Some(Primitive::Bury),
        OperatorSymbol::Flip => Some(Primitive::Flip),
        OperatorSymbol::SwapLower => Some(Primitive::SwapLower),
        OperatorSymbol::Over => Some(Primitive::Over),
        OperatorSymbol::Under => Some(Primitive::Under),
        OperatorSymbol::Duplicate => Some(Primitive::Duplicate),
        OperatorSymbol::Unduplicate => Some(Primitive::Unduplicate),
        OperatorSymbol::EastBranch => match d {
            Direction::North => Some(Primitive::PushControl(true)),
            Direction::South => Some(Primitive::PushControl(false)),
            Direction::East => Some(Primitive::FlipControl),
            Direction::West => None,
        },
        OperatorSymbol::WestBranch => match d {
            Direction::North => Some(Primitive::PushControl(false)),
            Direction::South => Some(Primitive::PushControl(true)),
            Direction::East => None,
            Direction::West => Some(Primitive::FlipControl),
        },
        OperatorSymbol::SouthBranch => match d {
            Direction::North => None,
            Direction::South => Some(Primitive::FlipControl),
            Direction::East => Some(Primitive::PushControl(true)),
            Direction::West => Some(Primitive::PushControl(false)),
        },
        OperatorSymbol::NorthBranch => match d {
            Direction::North => Some(Primitive::FlipControl),
            Direction::South => None,
            Direction::East => Some(Primitive::PushControl(false)),
            Direction::West => Some(Primitive::PushControl(true)),
        },
        _ => None,
    }
}

/// The forward primitive of an instruction, as [`forward_primitive`] gives
/// it.
fn forward_primitive_of(op: &OperatorSymbol, d: Direction) -> (r: Option<Primitive>)
    ensures
        r == forward_primitive(*op, d),
{
    match op {
        OperatorSymbol::Number(n) => Some(Primitive::Number(*n)),
        OperatorSymbol::PushZero => Some(Primitive::PushZero),
        OperatorSymbol::PopZero => Some(Primitive::PopZero),
        OperatorSymbol::PopMainToControl => Some(Primitive::PopMainToControl),
        OperatorSymbol::PopControlToMain => Some(Primitive::PopControlToMain),
        OperatorSymbol::SwapStacks => Some(Primitive::SwapStacks),
        OperatorSymbol::Write => Some(Primitive::Write),
        OperatorSymbol::Read => Some(Primitive::Read),
        OperatorSymbol::Increment => Some(Primitive::Increment),
        OperatorSymbol::Decrement => Some(Primitive::Decrement),
        OperatorSymbol::Add => Some(Primitive::Add),
        OperatorSymbol::Subtract => Some(Primitive::Subtract),
        OperatorSymbol::Divide => Some(Primitive::Divide),
        OperatorSymbol::Multiply => Some(Primitive::Multiply),
        OperatorSymbol::Not => Some(Primitive::Not),
        OperatorSymbol::And => Some(Primitive::And),
        OperatorSymbol::Or => Some(Primitive::Or),
        OperatorSymbol::Xor => Some(Primitive::Xor),
        OperatorSymbol::RotateLeft => Some(Primitive::RotateLeft),
        OperatorSymbol::RotateRight => Some(Primitive::RotateRight),
        OperatorSymbol::ToggleControl => Some(Primitive::ToggleControl),
        OperatorSymbol::EqualityCheck => Some(Primitive::EqualityCheck),
        OperatorSymbol::LessThanCheck => Some(Primitive::LessThanCheck),
        OperatorSymbol::GreaterThanCheck => Some(Primitive::GreaterThanCheck),
        OperatorSymbol::SwapTop => Some(Primitive::SwapTop),
        OperatorSymbol::Dig => Some(Primitive::Dig),
        OperatorSymbol::Bury => Some(Primitive::Bury),
        OperatorSymbol::Flip => Some(Primitive::Flip),
        OperatorSymbol::SwapLower => Some(Primitive::SwapLower),
        OperatorSymbol::Over => Some(Primitive::Over),
        OperatorSymbol::Under => Some(Primitive::Under),
        OperatorSymbol::Duplicate => Some(Primitive::Duplicate),
        OperatorSymbol::Unduplicate => Some(Primitive::Unduplicate),
        OperatorSymbol::EastBranch => match d {
            Direction::North => Some(Primitive::PushControl(true)),
            Direction::South => Some(Primitive::PushControl(false)),
            Direction::East => Some(Primitive::FlipControl),
            Direction::West => None,
        },
        OperatorSymbol::WestBranch => match d {
            Direction::North => Some(Primitive::PushControl(false)),
            Direction::South => Some(Primitive::PushControl(true)),
            Direction::East => None,
            Direction::West => Some(Primitive::FlipControl),
        },
        OperatorSymbol::SouthBranch => match d {
            Direction::North => None,
            Direction::South => Some(Primitive::FlipControl),
            Direction::East => Some(Primitive::PushControl(true)),
            Direction::West => Some(Primitive::PushControl(false)),
        },
        OperatorSymbol::NorthBranch => match d {
            Direction::North => Some(Primitive::FlipControl),
            Direction::South => None,
            Direction::East => Some(Primitive::PushControl(false)),
            Direction::West => Some(Primitive::PushControl(true)),
        },
        _ => None,
    }
}

/// The primitive that `op` runs when entered travelling in `d`, in the given
/// mode: in inverse mode, the dual of its forward primitive.
pub open spec fn lowered(op: OperatorSymbol, d: Direction, inverse: bool) -> Option<Primitive> {
    match forward_primitive(op, d) {
        Some(p) => Some(if inverse { dual(p) } else { p }),
        None => None,
    }
}

/// `op` has no inverse semantics.
pub open spec fn lacks_inverse(op: OperatorSymbol) -> bool {
    op is Write || op is Read || op is String
}

/// The primitive an instruction runs, as [`lowered`] gives it.
pub fn lower(op: &OperatorSymbol, d: Direction, inverse: bool) -> (r: Option<Primitive>)
    ensures
        r == lowered(*op, d, inverse),
{
    match forward_primitive_of(op, d) {
        Some(p) => Some(if inverse { dual_of(p) } else { p }),
        None => None,
    }
}

pub open spec fn direction_letter(d: Direction) -> Seq<char> {
    match d {
        Direction::North => "N"@,
        Direction::South => "S"@,
        Direction::East => "E"@,
        Direction::West => "W"@,
    }
}

pub open spec fn mode_word(inverse: bool) -> Seq<char> {
    if inverse { "inverse"@ } else { "normal"@ }
}

/// Column, row, direction letter and mode of a key, joined by underscores.
pub open spec fn key_suffix(k: ExpressionIdentifier) -> Seq<char> {
    decimal(k.position.0 as nat) + "_"@ + decimal(k.position.1 as nat) + "_"@
        + direction_letter(k.direction) + "_"@ + mode_word(k.inverse_mode)
}

/// The name of the procedure of the block with key `k`.
pub open spec fn function_name(k: ExpressionIdentifier) -> Seq<char> {
    "@bf_cg_"@ + key_suffix(k)
}

/// The name of the constant that holds the string literal at instruction
/// `index` of the block with key `k`.
pub open spec fn string_name(k: ExpressionIdentifier, index: nat) -> Seq<char> {
    "bf_str_"@ + key_suffix(k) + "_"@ + decimal(index)
}

fn push_key_suffix(out: &mut String, k: ExpressionIdentifier)
    ensures
        final(out)@ == old(out)@ + key_suffix(k),
{
    let ghost start = out@;
    push_decimal(out, k.position.0 as u64);
    push_str(out, "_");
    push_decimal(out, k.position.1 as u64);
    push_str(out, "_");
    match k.direction {
        Direction::North => push_str(out, "N"),
        Direction::South => push_str(out, "S"),
        Direction::East => push_str(out, "E"),
        Direction::West => push_str(out, "W"),
    }
    push_str(out, "_");
    if k.inverse_mode {
        push_str(out, "inverse");
    } else {
        push_str(out, "normal");
    }
    proof {
        assert(out@ =~= start + key_suffix(k));
    }
}

impl ExpressionIdentifier {
    /// The name of the procedure of the block with this key.
    pub fn to_codegen_function_name(&self) -> (r: String)
        ensures
            r@ == function_name(*self),
    {
        let mut out = String::new();
        push_str(&mut out, "@bf_cg_");
        push_key_suffix(&mut out, *self);
        proof { assert(out@ =~= function_name(*self)); }
        out
    }
}

/// The character codes of `s` as a list of `i32` constants.
pub open spec fn i32_list(s: Seq<char>) -> Seq<char>
    decreases s.len(),
{
    if s.len() == 0 {
        Seq::empty()
    } else if s.len() == 1 {
        "i32 "@ + decimal(s[0] as u32 as nat)
    } else {
        i32_list(s.drop_last()) + ", i32 "@ + decimal(s.last() as u32 as nat)
    }
}

/// The character codes of `str` as a comma-separated list of `i32`
/// constants.
pub fn string_to_i32_arr(str: &str) -> (r: String)
    ensures
        r@ == i32_list(str@),
{
    let n = str.unicode_len();
    let mut res = String::new();
    let mut i: usize = 0;
    while i < n
        invariant
            n == str@.len(),
            i <= n,
            res@ == i32_list(str@.take(i as int)),
        decreases n - i,
    {
        let c = str.get_char(i);
        proof {
            assert(str@.take(i as int + 1).drop_last() =~= str@.take(i as int));
            assert(str@.take(i as int + 1).last() == c);
        }
        if i > 0 {
            push_str(&mut res, ", i32 ");
        } else {
            push_str(&mut res, "i32 ");
        }
        push_decimal(&mut res, c as u32 as u64);
        proof {
            if i == 0 {
                assert(str@.take(1) =~= seq![c]);
                assert(res@ =~= i32_list(str@.take(1)));
            } else {
                assert(res@ =~= i32_list(str@.take(i as int + 1)));
            }
        }
        i += 1;
    }
    proof { assert(str@.take(n as int) =~= str@); }
    res
}

/// The call that runs primitive `p` in the emitted program.
pub open spec fn call_text(p: Primitive) -> Seq<char> {
    match p {
        Primitive::Number(n) => "call void @bf_Number(i32 "@ + decimal(n as nat) + ")"@,
        Primitive::PushControl(b) => if b {
            "call void @push_control_stack(i32 1)"@
        } else {
            "call void @push_control_stack(i32 0)"@
        },
        Primitive::FlipControl => "call void @toggle_control_stack()"@,
        Primitive::PushZero => "call void @bf_PushZero()"@,
        Primitive::PopZero => "call void @bf_PopZero()"@,
        Primitive::PopMainToControl => "call void @bf_PopMainToControl()"@,
        Primitive::PopControlToMain => "call void @bf_PopControlToMain()"@,
        Primitive::SwapStacks => "call void @bf_SwapStacks()"@,
        Primitive::Write => "call void @bf_Write()"@,
        Primitive::Read => "call void @bf_Read()"@,
        Primitive::Increment => "call void @bf_Increment()"@,
        Primitive::Decrement => "call void @bf_Decrement()"@,
        Primitive::Add => "call void @bf_Add()"@,
        Primitive::Subtract => "call void @bf_Subtract()"@,
        Primitive::Divide => "call void @bf_Divide()"@,
        Primitive::Multiply => "call void @bf_Multiply()"@,
        Primitive::Not => "call void @bf_Not()"@,
        Primitive::And => "call void @bf_And()"@,
        Primitive::Or => "call void @bf_Or()"@,
        Primitive::Xor => "call void @bf_Xor()"@,
        Primitive::RotateLeft => "call void @bf_RotateLeft()"@,
        Primitive::RotateRight => "call void @bf_RotateRight()"@,
        Primitive::ToggleControl => "call void @bf_ToggleControl()"@,
        Primitive::EqualityCheck => "call void @bf_EqualityCheck()"@,
        Primitive::LessThanCheck => "call void @bf_LessThanCheck()"@,
        Primitive::GreaterThanCheck => "call void @bf_GreaterThanCheck()"@,
        Primitive::SwapTop => "call void @bf_SwapTop()"@,
        Primitive::Dig => "call void @bf_Dig()"@,
        Primitive::Bury => "call void @bf_Bury()"@,
        Primitive::Flip => "call void @bf_Flip()"@,
        Primitive::SwapLower => "call void @bf_SwapLower()"@,
        Primitive::Over => "call void @bf_Over()"@,
        Primitive::Under => "call void @bf_Under()"@,
        Primitive::Duplicate => "call void @bf_Duplicate()"@,
        Primitive::Unduplicate => "call void @bf_Unduplicate()"@,
    }
}

fn push_call(out: &mut String, p: Primitive)
    ensures
        final(out)@ == old(out)@ + call_text(p),
{
    let ghost start = out@;
    match p {
        Primitive::Number(n) => {
            push_str(out, "call void @bf_Number(i32 ");
            push_decimal(out, n as u64);
            push_str(out, ")");
            proof { assert(out@ =~= start + call_text(p)); }
        },
        Primitive::PushControl(b) => if b {
            push_str(out, "call void @push_control_stack(i32 1)")
        } else {
            push_str(out, "call void @push_control_stack(i32 0)")
        },
        Primitive::FlipControl => push_str(out, "call void @toggle_control_stack()"),
        Primitive::PushZero => push_str(out, "call void @bf_PushZero()"),
        Primitive::PopZero => push_str(out, "call void @bf_PopZero()"),
        Primitive::PopMainToControl => push_str(out, "call void @bf_PopMainToControl()"),
        Primitive::PopControlToMain => push_str(out, "call void @bf_PopControlToMain()"),
        Primitive::SwapStacks => push_str(out, "call void @bf_SwapStacks()"),
        Primitive::Write => push_str(out, "call void @bf_Write()"),
        Primitive::Read => push_str(out, "call void @bf_Read()"),
        Primitive::Increment => push_str(out, "call void @bf_Increment()"),
        Primitive::Decrement => push_str(out, "call void @bf_Decrement()"),
        Primitive::Add => push_str(out, "call void @bf_Add()"),
        Primitive::Subtract => push_str(out, "call void @bf_Subtract()"),
        Primitive::Divide => push_str(out, "call void @bf_Divide()"),
        Primitive::Multiply => push_str(out, "call void @bf_Multiply()"),
        Primitive::Not => push_str(out, "call void @bf_Not()"),
        Primitive::And => push_str(out, "call void @bf_And()"),
        Primitive::Or => push_str(out, "call void @bf_Or()"),
        Primitive::Xor => push_str(out, "call void @bf_Xor()"),
        Primitive::RotateLeft => push_str(out, "call void @bf_RotateLeft()"),
        Primitive::RotateRight => push_str(out, "call void @bf_RotateRight()"),
        Primitive::ToggleControl => push_str(out, "call void @bf_ToggleControl()"),
        Primitive::EqualityCheck => push_str(out, "call void @bf_EqualityCheck()"),
        Primitive::LessThanCheck => push_str(out, "call void @bf_LessThanCheck()"),
        Primitive::GreaterThanCheck => push_str(out, "call void @bf_GreaterThanCheck()"),
        Primitive::SwapTop => push_str(out, "call void @bf_SwapTop()"),
        Primitive::Dig => push_str(out, "call void @bf_Dig()"),
        Primitive::Bury => push_str(out, "call void @bf_Bury()"),
        Primitive::Flip => push_str(out, "call void @bf_Flip()"),
        Primitive::SwapLower => push_str(out, "call void @bf_SwapLower()"),
        Primitive::Over => push_str(out, "call void @bf_Over()"),
        Primitive::Under => push_str(out, "call void @bf_Under()"),
        Primitive::Duplicate => push_str(out, "call void @bf_Duplicate()"),
        Primitive::Unduplicate => push_str(out, "call void @bf_Unduplicate()"),
    }
}

/// The code that pushes a string literal of `len` characters, held in the
/// constant `name`, onto the main stack; nothing for an empty literal.
pub open spec fn string_code(len: nat, name: Seq<char>) -> Seq<char> {
    if len == 0 {
        Seq::empty()
    } else {
        "\n    ; STRING CODE BEGIN\n    call void @increment_stack(i32 1)\n\n    ; paste string onto the stack\n    %offset = load i32, i32* @primary_offset\n    %ptr = getelementptr [40 x i32], i32* @primary_stack, i32 0, i32 %offset\n    %str = load ["@
            + decimal(len) + " x i32], i32* @"@ + name + "\n    store ["@ + decimal(len)
            + " x i32] %str, ptr %ptr\n\n    call void @increment_stack(i32 "@ + decimal((len - 1) as nat)
            + ") ; len - 1\n    ; STRING CODE END\n"@
    }
}

/// The definition of the constant `name` holding the character codes of `s`.
pub open spec fn constant_text(s: Seq<char>, name: Seq<char>) -> Seq<char> {
    "\n@"@ + name + " = private unnamed_addr constant ["@ + decimal(s.len()) + " x i32] ["@ + i32_list(s)
        + "], align 4\n"@
}

/// The code that pushes the characters of `str`, held in the constant
/// `string_name`, onto the main stack.
pub fn string_llvm_ir(str: &str, string_name: &str) -> (r: String)
    ensures
        r@ == string_code(str@.len(), string_name@),
{
    let len = str.unicode_len();
    let mut out = String::new();
    if len == 0 {
        proof { assert(out@ =~= string_code(str@.len(), string_name@)); }
        return out;
    }
    push_str(&mut out, "\n    ; STRING CODE BEGIN\n    call void @increment_stack(i32 1)\n\n    ; paste string onto the stack\n    %offset = load i32, i32* @primary_offset\n    %ptr = getelementptr [40 x i32], i32* @primary_stack, i32 0, i32 %offset\n    %str = load [");
    push_decimal(&mut out, len as u64);
    push_str(&mut out, " x i32], i32* @");
    push_str(&mut out, string_name);
    push_str(&mut out, "\n    store [");
    push_decimal(&mut out, len as u64);
    push_str(&mut out, " x i32] %str, ptr %ptr\n\n    call void @increment_stack(i32 ");
    push_decimal(&mut out, (len - 1) as u64);
    push_str(&mut out, ") ; len - 1\n    ; STRING CODE END\n");
    proof { assert(out@ =~= string_code(str@.len(), string_name@)); }
    out
}

/// What instruction `op`, at `index` in the block with key `key`, adds to
/// the procedure body and to the constants after it; an instruction
/// without inverse semantics reached in inverse mode is an error.
pub open spec fn op_text(op: Operator, key: ExpressionIdentifier, index: nat)
    -> Result<(Seq<char>, Seq<char>), CompileError>
{
    if op.inverse && lacks_inverse(op.operation) {
        Err(CompileError::UnsupportedInverseOperation { key })
    } else {
        match op.operation {
            OperatorSymbol::String(s) => if s@.len() == 0 {
                Ok((Seq::empty(), Seq::empty()))
            } else {
                Ok((
                    "\n    "@ + string_code(s@.len(), string_name(key, index)),
                    constant_text(s@, string_name(key, index)),
                ))
            },
            _ => match lowered(op.operation, op.in_direction, op.inverse) {
                Some(p) => Ok(("\n    "@ + call_text(p), Seq::empty())),
                None => Ok((Seq::empty(), Seq::empty())),
            },
        }
    }
}

/// Appends the code of one instruction to `str`, and the definition of any
/// string constant it uses to `epilogue`.
pub fn operator_to_llvm_ir(
    str: &mut String,
    epilogue: &mut String,
    operator_data: &Operator,
    key: ExpressionIdentifier,
    index: usize,
) -> (r: Result<(), CompileError>)
    ensures
        match op_text(*operator_data, key, index as nat) {
            Ok((body, constants)) => r is Ok && final(str)@ == old(str)@ + body
                && final(epilogue)@ == old(epilogue)@ + constants,
            Err(e) => r == Err::<(), CompileError>(e) && final(str)@ == old(str)@
                && final(epilogue)@ == old(epilogue)@,
        },
{
    let unsupported = match &operator_data.operation {
        OperatorSymbol::Write | OperatorSymbol::Read | OperatorSymbol::String(_) => operator_data.inverse,
        _ => false,
    };
    if unsupported {
        return Err(CompileError::UnsupportedInverseOperation { key });
    }
    match &operator_data.operation {
        OperatorSymbol::String(text) => {
            let t = text.as_str();
            if t.unicode_len() == 0 {
                proof { assert(old(str)@ + Seq::<char>::empty() =~= old(str)@); assert(old(epilogue)@ + Seq::<char>::empty() =~= old(epilogue)@); }
                return Ok(());
            }
            let mut name = String::new();
            push_str(&mut name, "bf_str_");
            push_key_suffix(&mut name, key);
            push_str(&mut name, "_");
            push_decimal(&mut name, index as u64);
            proof { assert(name@ =~= string_name(key, index as nat)); }
            let ghost e0 = epilogue@;
            push_str(epilogue, "\n@");
            push_str(epilogue, name.as_str());
            push_str(epilogue, " = private unnamed_addr constant [");
            push_decimal(epilogue, t.unicode_len() as u64);
            push_str(epilogue, " x i32] [");
            let arr = string_to_i32_arr(t);
            push_str(epilogue, arr.as_str());
            push_str(epilogue, "], align 4\n");
            proof { assert(epilogue@ =~= e0 + constant_text(t@, string_name(key, index as nat))); }
            let code = string_llvm_ir(t, name.as_str());
            let ghost s0 = str@;
            push_str(str, "\n    ");
            push_str(str, code.as_str());
            proof { assert(str@ =~= s0 + ("\n    "@ + string_code(t@.len(), string_name(key, index as nat)))); }
            Ok(())
        },
        _ => {
            match lower(&operator_data.operation, operator_data.in_direction, operator_data.inverse) {
                Some(p) => {
                    let ghost s0 = str@;
                    push_str(str, "\n    ");
                    push_call(str, p);
                    proof {
                        assert(str@ =~= s0 + ("\n    "@ + call_text(p)));
                        assert(old(epilogue)@ + Seq::<char>::empty() =~= old(epilogue)@);
                    }
                    Ok(())
                },
                None => {
                    proof { assert(old(str)@ + Seq::<char>::empty() =~= old(str)@); assert(old(epilogue)@ + Seq::<char>::empty() =~= old(epilogue)@); }
                    Ok(())
                },
            }
        },
    }
}

/// The body text and constants of instructions `ops`, the first of the
/// block with key `key`.
pub open spec fn ops_text(ops: Seq<Operator>, key: ExpressionIdentifier)
    -> Result<(Seq<char>, Seq<char>), CompileError>
    decreases ops.len(),
{
    if ops.len() == 0 {
        Ok((Seq::empty(), Seq::empty()))
    } else {
        match ops_text(ops.drop_last(), key) {
            Err(e) => Err(e),
            Ok((body, constants)) => match op_text(ops.last(), key, (ops.len() - 1) as nat) {
                Err(e) => Err(e),
                Ok((b, c)) => Ok((body + b, constants + c)),
            },
        }
    }
}

/// How the procedure of a block hands on control.
pub open spec fn terminator_text(next: Branches) -> Seq<char> {
    match next {
        Branches::Halt => "\n      ret void"@,
        Branches::One(k) => "\n    call void "@ + function_name(k) + "()\n    ret void"@,
        Branches::Two(k1, k2) =>
            "\n\n    %cond = call i1 @pop_control_stack_i1()\n    br i1 %cond, label %branch_1, label %branch_0\n"@
                + "branch_1:\n    call void "@ + function_name(k1) + "()\n    ret void\n"@
                + "branch_0:\n    call void "@ + function_name(k2) + "()\n    ret void"@,
    }
}

/// The procedure of block `b` with key `key`, followed by its constants.
pub open spec fn block_text(key: ExpressionIdentifier, b: Expression) -> Result<Seq<char>, CompileError> {
    match ops_text(b.arr@, key) {
        Err(e) => Err(e),
        Ok((body, constants)) => Ok(
            "define void "@ + function_name(key) + "() {"@ + body + terminator_text(b.next) + "\n}\n"@
                + constants + "\n"@,
        ),
    }
}

/// The procedures of the blocks of `t` with keys `ks`, in that order.
pub open spec fn blocks_text(t: ExpressionTree, ks: Seq<ExpressionIdentifier>) -> Result<Seq<char>, CompileError>
    decreases ks.len(),
{
    if ks.len() == 0 {
        Ok(Seq::empty())
    } else {
        match blocks_text(t, ks.drop_last()) {
            Err(e) => Err(e),
            Ok(text) => match block_text(ks.last(), t.block(ks.last())) {
                Err(e) => Err(e),
                Ok(b) => Ok(text + b),
            },
        }
    }
}

/// The entry procedure, which calls the block of `start`.
pub open spec fn main_text(start: ExpressionIdentifier) -> Seq<char> {
    "\n;; actual codegen over\n\ndefine void @main() {\n    call void "@ + function_name(start) + "()\n    ret void\n}"@
}

/// Appends the procedure of block `b`, with key `key`, and its constants.
fn emit_block(out: &mut String, key: ExpressionIdentifier, b: &Expression) -> (r: Result<(), CompileError>)
    ensures
        match block_text(key, *b) {
            Ok(text) => r is Ok && final(out)@ == old(out)@ + text,
            Err(e) => r == Err::<(), CompileError>(e) && final(out)@ == old(out)@,
        },
{
    let mut body = String::new();
    let mut epilogue = String::new();
    let mut i: usize = 0;
    while i < b.arr.len()
        invariant
            i <= b.arr@.len(),
            ops_text(b.arr@.take(i as int), key) == Ok::<(Seq<char>, Seq<char>), CompileError>((body@, epilogue@)),
        decreases b.arr@.len() - i,
    {
        proof {
            assert(b.arr@.take(i as int + 1).drop_last() =~= b.arr@.take(i as int));
            assert(b.arr@.take(i as int + 1).last() == b.arr@[i as int]);
        }
        let r = operator_to_llvm_ir(&mut body, &mut epilogue, &b.arr[i], key, i);
        if r.is_err() {
            let e = r.unwrap_err();
            proof {
                assert(ops_text(b.arr@.take(i as int + 1), key) == Err::<(Seq<char>, Seq<char>), CompileError>(e));
                lemma_ops_text_err_prefix(b.arr@, key, i as int + 1, e);
            }
            return Err(e);
        }
        i += 1;
    }
    proof { assert(b.arr@.take(b.arr@.len() as int) =~= b.arr@); }
    emit_procedure(out, key, &body, &epilogue, b.next);
    Ok(())
}

/// Appends `t`, keeping track of everything appended since `o0`.
fn push_piece(out: &mut String, t: &str, Ghost(o0): Ghost<Seq<char>>, Ghost(acc): Ghost<Seq<char>>)
    requires
        old(out)@ == o0 + acc,
    ensures
        final(out)@ == o0 + (acc + t@),
{
    push_str(out, t);
    proof { vstd::seq_lib::lemma_concat_associative(o0, acc, t@); }
}

/// Appends how the procedure with ending `next` hands on control.
fn push_terminator(out: &mut String, next: Branches)
    ensures
        final(out)@ == old(out)@ + terminator_text(next),
{
    let ghost o0 = out@;
    proof { assert(o0 + Seq::<char>::empty() =~= o0); }
    match next {
        Branches::Halt => push_str(out, "\n      ret void"),
        Branches::One(k) => {
            push_piece(out, "\n    call void ", Ghost(o0), Ghost(Seq::empty()));
            let n1 = k.to_codegen_function_name();
            let ghost a1 = Seq::<char>::empty() + "\n    call void "@;
            push_piece(out, n1.as_str(), Ghost(o0), Ghost(a1));
            let ghost a2 = a1 + n1@;
            push_piece(out, "()\n    ret void", Ghost(o0), Ghost(a2));
            proof { assert(a2 + "()\n    ret void"@ =~= terminator_text(next)); }
        },
        Branches::Two(k1, k2) => {
            let ghost e = Seq::<char>::empty();
            push_piece(out, "\n\n    %cond = call i1 @pop_control_stack_i1()\n    br i1 %cond, label %branch_1, label %branch_0\n", Ghost(o0), Ghost(e));
            let ghost a1 = e + "\n\n    %cond = call i1 @pop_control_stack_i1()\n    br i1 %cond, label %branch_1, label %branch_0\n"@;
            push_piece(out, "branch_1:\n    call void ", Ghost(o0), Ghost(a1));
            let ghost a2 = a1 + "branch_1:\n    call void "@;
            let n1 = k1.to_codegen_function_name();
            push_piece(out, n1.as_str(), Ghost(o0), Ghost(a2));
            let ghost a3 = a2 + n1@;
            push_piece(out, "()\n    ret void\n", Ghost(o0), Ghost(a3));
            let ghost a4 = a3 + "()\n    ret void\n"@;
            push_piece(out, "branch_0:\n    call void ", Ghost(o0), Ghost(a4));
            let ghost a5 = a4 + "branch_0:\n    call void "@;
            let n2 = k2.to_codegen_function_name();
            push_piece(out, n2.as_str(), Ghost(o0), Ghost(a5));
            let ghost a6 = a5 + n2@;
            push_piece(out, "()\n    ret void", Ghost(o0), Ghost(a6));
            proof {
                assert(e + "\n\n    %cond = call i1 @pop_control_stack_i1()\n    br i1 %cond, label %branch_1, label %branch_0\n"@
                    =~= "\n\n    %cond = call i1 @pop_control_stack_i1()\n    br i1 %cond, label %branch_1, label %branch_0\n"@);
                assert(a6 + "()\n    ret void"@ =~= terminator_text(next));
            }
        },
    }
}

/// Appends the procedure with key `key`, body `body` and ending `next`,
/// followed by the constants `epilogue`.
fn emit_procedure(out: &mut String, key: ExpressionIdentifier, body: &String, epilogue: &String, next: Branches)
    ensures
        final(out)@ == old(out)@ + ("define void "@ + function_name(key) + "() {"@ + body@ + terminator_text(next)
            + "\n}\n"@ + epilogue@ + "\n"@),
{
    let ghost o0 = out@;
    let ghost e = Seq::<char>::empty();
    proof { assert(o0 + e =~= o0); }
    push_piece(out, "define void ", Ghost(o0), Ghost(e));
    let ghost a1 = e + "define void "@;
    let name = key.to_codegen_function_name();
    push_piece(out, name.as_str(), Ghost(o0), Ghost(a1));
    let ghost a2 = a1 + name@;
    push_piece(out, "() {", Ghost(o0), Ghost(a2));
    let ghost a3 = a2 + "() {"@;
    push_piece(out, body.as_str(), Ghost(o0), Ghost(a3));
    let ghost a4 = a3 + body@;
    push_terminator(out, next);
    proof { vstd::seq_lib::lemma_concat_associative(o0, a4, terminator_text(next)); }
    let ghost a5 = a4 + terminator_text(next);
    push_piece(out, "\n}\n", Ghost(o0), Ghost(a5));
    let ghost a6 = a5 + "\n}\n"@;
    push_piece(out, epilogue.as_str(), Ghost(o0), Ghost(a6));
    let ghost a7 = a6 + epilogue@;
    push_piece(out, "\n", Ghost(o0), Ghost(a7));
    proof {
        assert(e + "define void "@ =~= "define void "@);
    }
}

/// The runtime that every emitted program starts with: the two stacks and
/// the primitive operations on them.
pub const PRELUDE: &'static str = r#"
;; globals
@int_str = private unnamed_addr constant [4 x i8] c"%d\0A\00", align 1
@char_str = private unnamed_addr constant [3 x i8] c"%c\00", align 1
@stack_str = private unnamed_addr constant [8 x i8] c"stack:\0A\00", align 1
@newline_str = private unnamed_addr constant [3 x i8] c"\0A\0A\00", align 1
@unimplemented_str = private unnamed_addr constant [15 x i8] c"unimplemented!\00", align 1

declare dso_local i32 @printf(i8*, ...) #1
;declare dso_local i32 @sleep(i32) #1
declare dso_local void @exit(i32) #1

declare dso_local i32 @llvm.fshl.i32(i32, i32, i32) #1
declare dso_local i32 @llvm.fshr.i32(i32, i32, i32) #1

; offsets point at the most recent value inserted
; so must be incremented if you want to add
; but can be used directly for peek
@primary_stack = global [40 x i32]  zeroinitializer, align 4
@primary_offset = global i32 -1

@control_stack = global [40 x i32]  zeroinitializer, align 4
@control_offset = global i32 -1

;; general utility functions

define void @print_int(i32 %val) {
    call i32 (i8*, ...) @printf(i8* getelementptr inbounds ([4 x i8], [4 x i8]* @int_str, i64 0, i64 0), i32 %val)
    ret void
}

define void @print_stack() {
    call i32 (i8*, ...) @printf(i8* getelementptr inbounds ([8 x i8], [8 x i8]* @stack_str, i64 0, i64 0))
    %arr = alloca [40 x i32], align 16
    %i = alloca i32, align 4
    store i32 0, i32* %i, align 4
    %stack_offset = load i32, i32* @primary_offset
    %stack_size = add i32 %stack_offset, 1
    br label %for.cond

for.cond:
  %x = load i32, i32* %i, align 4
  %cmp = icmp slt i32 %x, %stack_size ; 40 is length of stack
  br i1 %cmp, label %for.body, label %for.end

for.body:
    ; print stack value at i
    %i. = load i32, i32* %i, align 4
    %ptr = getelementptr [40 x i32], i32* @primary_stack, i32 0, i32 %i.
    %val = load i32, i32* %ptr
    call void @print_int(i32 %val)

    ; increment i
    %i.0 = load i32, i32* %i, align 4
    %i.1 = add nsw i32 %i.0, 1
    store i32 %i.1, i32* %i, align 4
    br label %for.cond

for.end:
    call i32 (i8*, ...) @printf(i8* getelementptr inbounds ([3 x i8], [3 x i8]* @newline_str, i64 0, i64 0))
    ret void
}

define void @debug(i32 %x) {
    call void @print_stack()
    call void @print_int(i32 %x)
    ret void
}

define void @unimplemented() {
    call i32 (i8*, ...) @printf(i8* getelementptr inbounds ([15 x i8], [15 x i8]* @unimplemented_str, i64 0, i64 0))
    call void @exit(i32 1)
    unreachable
}

define void @increment_stack(i32 %amount) {
    %offset.0 = load i32, i32* @primary_offset
    %offset.1 = add i32 %offset.0, %amount
    store i32 %offset.1, i32* @primary_offset
    ret void
}

define void @increment_control_stack(i32 %amount) {
    %offset.0 = load i32, i32* @control_offset
    %offset.1 = add i32 %offset.0, %amount
    store i32 %offset.1, i32* @control_offset
    ret void
}

define void @push_stack(i32 %val) {
    ; increment pointer by one
    call void @increment_stack(i32 1)

    ; put val onto the stack at pointer
    %offset = load i32, i32* @primary_offset
    %ptr = getelementptr [40 x i32], i32* @primary_stack, i32 0, i32 %offset
    store i32 %val, ptr %ptr

    ret void
}

define void @push_control_stack(i32 %val) {
    ; increment pointer by one
    call void @increment_control_stack(i32 1)

    ; put val onto the stack at pointer
    %offset = load i32, i32* @control_offset
    %ptr = getelementptr [40 x i32], i32* @control_stack, i32 0, i32 %offset
    store i32 %val, ptr %ptr

    ret void
}

define i32 @peek_stack(i32 %depth) {
    %offset.0 = load i32, i32* @primary_offset
    %offset.1 = sub i32 %offset.0, %depth
    %ptr = getelementptr [40 x i32], i32* @primary_stack, i32 0, i32 %offset.1
    %val = load i32, i32* %ptr

    ret i32 %val
}

define i32 @pop_stack() {
    ; get val from the stack at pointer
    %offset = load i32, i32* @primary_offset
    %ptr = getelementptr [40 x i32], i32* @primary_stack, i32 0, i32 %offset
    %val = load i32, i32* %ptr

    ; decrement pointer by one
    call void @increment_stack(i32 -1)

    ret i32 %val
}

define i32 @pop_control_stack() {
    ; get val from the stack at pointer
    %offset = load i32, i32* @control_offset
    %ptr = getelementptr [40 x i32], i32* @control_stack, i32 0, i32 %offset
    %val = load i32, i32* %ptr

    ; decrement pointer by one
    call void @increment_control_stack(i32 -1)

    ret i32 %val
}

; zero = zero, everything else = 1
define i1 @pop_control_stack_i1() {
    %val = call i32 @pop_control_stack()
    ; check if control stack is zero or one
    %res = icmp ne i32 %val, 0
    ret i1 %res
}

define void @toggle_control_stack() {
    %val = call i32 @pop_control_stack()
    ; check if control stack is zero or one
    %cond = icmp eq i32 %val, 0
    br i1 %cond, label %zero, label %not_zero
zero:
    call void @push_control_stack(i32 1)
    ret void
not_zero:
    call void @push_control_stack(i32 0)
    ret void
}

;; specific befreak operator impls

define void @bf_Number(i32 %num) {
    call void @debug(i32 13)
    %val.0 = call i32 @pop_stack()
    %val.1 = xor i32 %val.0, %num
    call void @push_stack(i32 %val.1)
    ret void
}

; simple stack
define void @bf_PushZero() {
    call void @debug(i32 14)
    call void @push_stack(i32 0)
    ret void
}

define void @bf_PopZero() {
    call void @debug(i32 15)
    call void @pop_stack()
    ret void
}

define void @bf_PopMainToControl() {
    call void @debug(i32 16)
    %1 = call i32 @pop_stack()
    call void @push_control_stack(i32 %1)
    ret void
}

define void @bf_PopControlToMain() {
    call void @debug(i32 17)
    %1 = call i32 @pop_control_stack()
    call void @push_stack(i32 %1)
    ret void
}

define void @bf_SwapStacks() {
    call void @debug(i32 18)
    %1 = call i32 @pop_stack()
    %2 = call i32 @pop_control_stack()
    call void @push_stack(i32 %2)
    call void @push_control_stack(i32 %1)
    ret void
}

; i/o
define void @bf_Write() {
    call void @debug(i32 19)
    %1 = call i32 @pop_stack()
    call i32 (i8*, ...) @printf(i8* getelementptr inbounds ([3 x i8], [3 x i8]* @char_str, i64 0, i64 0), i32 %1)
    ret void
}

define void @bf_Read() {
    call void @debug(i32 20)
    call void @unimplemented()
    ret void
}

; number
define void @bf_Increment() {
    call void @debug(i32 21)
    %1 = call i32 @pop_stack()
    %2 = add i32 %1, 1
    call void @push_stack(i32 %2)
    ret void
}

define void @bf_Decrement() {
    call void @debug(i32 22)
    %1 = call i32 @pop_stack()
    %2 = sub i32 %1, 1
    call void @push_stack(i32 %2)
    ret void
}

define void @bf_Add() {
    call void @debug(i32 23)
    %1 = call i32 @pop_stack()
    %2 = call i32 @pop_stack()
    %sum = add i32 %2, %1
    call void @push_stack(i32 %sum)
    call void @push_stack(i32 %1)
    ret void
}

define void @bf_Subtract() {
    call void @debug(i32 23)
    %1 = call i32 @pop_stack()
    %2 = call i32 @pop_stack()
    %sum = sub i32 %2, %1
    call void @push_stack(i32 %sum)
    call void @push_stack(i32 %1)
    ret void
}

define void @bf_Divide() {
    call void @debug(i32 24)
    %x = call i32 @pop_stack()
    %y = call i32 @pop_stack()
    %div = sdiv i32 %y, %x
    %rem = srem i32 %y, %x
    call void @push_stack(i32 %div)
    call void @push_stack(i32 %rem)
    call void @push_stack(i32 %x)
    ret void
}

define void @bf_Multiply() {
    call void @debug(i32 25)
    %x = call i32 @pop_stack()
    %rem = call i32 @pop_stack()
    %div = call i32 @pop_stack()
    %y.0 = mul i32 %x, %div
    %y.1 = add i32 %y.0, %rem
    call void @push_stack(i32 %y.1)
    call void @push_stack(i32 %x)
    ret void
}

; bitwise
define void @bf_Not() {
    call void @debug(i32 26)
    %1 = call i32 @pop_stack()
    %2 = xor i32 %1, -1 ; the docs say this is okay :)
    call void @push_stack(i32 %2)
    ret void
}

define void @bf_And() {
    call void @debug(i32 27)
    call void @unimplemented()
    ret void
}

define void @bf_Or() {
    call void @debug(i32 28)
    call void @unimplemented()
    ret void
}

define void @bf_Xor() {
    call void @debug(i32 29)
    call void @unimplemented()
    ret void
}

define void @bf_RotateLeft() {
    call void @debug(i32 30)
    %x = call i32 @pop_stack()
    %y = call i32 @pop_stack()
    %y.1 = call i32 @llvm.fshl.i32(i32 %y, i32 %y, i32 %x)
    call void @push_stack(i32 %y.1)
    call void @push_stack(i32 %x)
    ret void
}

define void @bf_RotateRight() {
    call void @debug(i32 31)
    %x = call i32 @pop_stack()
    %y = call i32 @pop_stack()
    %y.1 = call i32 @llvm.fshr.i32(i32 %y, i32 %y, i32 %x)
    call void @push_stack(i32 %y.1)
    call void @push_stack(i32 %x)
    ret void
}

; comparisons
define void @bf_ToggleControl() {
    call void @debug(i32 32)
    call void @unimplemented()
    ret void
}

define void @bf_EqualityCheck() {
    call void @debug(i32 33)
    %x = call i32 @peek_stack(i32 0)
    %y = call i32 @peek_stack(i32 1)
    %cond = icmp eq i32 %y, %x
    br i1 %cond, label %equal, label %not_equal
equal:
    call void @toggle_control_stack()
    ret void
not_equal:
    ret void
}

define void @bf_LessThanCheck() {
    call void @debug(i32 34)
    %x = call i32 @peek_stack(i32 0)
    %y = call i32 @peek_stack(i32 1)
    %cond = icmp slt i32 %y, %x
    br i1 %cond, label %equal, label %not_equal
equal:
    call void @toggle_control_stack()
    ret void
not_equal:
    ret void
}

define void @bf_GreaterThanCheck() {
    call void @debug(i32 35)
    %x = call i32 @peek_stack(i32 0)
    %y = call i32 @peek_stack(i32 1)
    %cond = icmp sgt i32 %y, %x
    br i1 %cond, label %equal, label %not_equal
equal:
    call void @toggle_control_stack()
    ret void
not_equal:
    ret void
}

; complex stack
define void @bf_SwapTop() {
    call void @debug(i32 36)
    %1 = call i32 @pop_stack()
    %2 = call i32 @pop_stack()
    call void @push_stack(i32 %1)
    call void @push_stack(i32 %2)
    ret void
}

define void @bf_Dig() {
    call void @debug(i32 37)
    %x = call i32 @pop_stack();
    %y = call i32 @pop_stack();
    %z = call i32 @pop_stack();
    call void @push_stack(i32 %y)
    call void @push_stack(i32 %x)
    call void @push_stack(i32 %z)
    ret void
}

define void @bf_Bury() {
    call void @debug(i32 38)
    %x = call i32 @pop_stack();
    %y = call i32 @pop_stack();
    %z = call i32 @pop_stack();
    call void @push_stack(i32 %x)
    call void @push_stack(i32 %z)
    call void @push_stack(i32 %y)
    ret void
}

define void @bf_Flip() {
    call void @debug(i32 39)
    call void @unimplemented()
    ret void
}

define void @bf_SwapLower() {
    call void @debug(i32 40)
    %x = call i32 @pop_stack();
    %y = call i32 @pop_stack();
    %z = call i32 @pop_stack();
    call void @push_stack(i32 %y)
    call void @push_stack(i32 %z)
    call void @push_stack(i32 %x)
    ret void
}

define void @bf_Over() {
    call void @debug(i32 41)
    %x = call i32 @pop_stack();
    %y = call i32 @pop_stack();
    call void @push_stack(i32 %y)
    call void @push_stack(i32 %x)
    call void @push_stack(i32 %y)
    ret void
}

define void @bf_Under() {
    call void @debug(i32 42)
    %y.0 = call i32 @pop_stack();
    %x = call i32 @pop_stack();
    ; assumes y.1 = y
    %y.1 = call i32 @pop_stack();
    call void @push_stack(i32 %y.1)
    call void @push_stack(i32 %x)
    ret void
}

; misc
define void @bf_Duplicate() {
    call void @debug(i32 43)
    ; assumes top two are same
    %x = call i32 @pop_stack()
    call void @push_stack(i32 %x)
    call void @push_stack(i32 %x)
    ret void
}

define void @bf_Unduplicate() {
    call void @debug(i32 44)
    call void @pop_stack()
    ret void
}

define void @bf_Halt() {
    call void @debug(i32 45)
    call void @exit(i32 0)
    unreachable
}

;; actual codegen begin

"#;

/// Emits the whole program for graph `data`: the runtime, one procedure per
/// block in some order, and the entry procedure. Fails, emitting nothing,
/// when a block holds an instruction without inverse semantics in inverse
/// mode.
pub fn compile(data: ExpressionTree) -> (r: Result<String, CompileError>)
    ensures
        exists|ks: Seq<ExpressionIdentifier>| {
            &&& ks.no_duplicates()
            &&& forall|k: ExpressionIdentifier| data.has(k) <==> ks.contains(k)
            &&& match blocks_text(data, ks) {
                Ok(text) => r matches Ok(s) && s@ == PRELUDE@ + text + main_text(data.start_key()),
                Err(e) => r == Err::<String, CompileError>(e),
            }
        },
{
    let keys = data.keys();
    let mut llvm_ir = String::new();
    push_str(&mut llvm_ir, PRELUDE);
    let mut i: usize = 0;
    while i < keys.len()
        invariant
            i <= keys@.len(),
            forall|k: ExpressionIdentifier| data.has(k) <==> keys@.contains(k),
            keys@.no_duplicates(),
            blocks_text(data, keys@.take(i as int)) matches Ok(text) && llvm_ir@ == PRELUDE@ + text,
        decreases keys@.len() - i,
    {
        let k = keys[i];
        proof {
            assert(keys@.contains(k));
            assert(keys@.take(i as int + 1).drop_last() =~= keys@.take(i as int));
            assert(keys@.take(i as int + 1).last() == k);
        }
        let b = data.get(k).unwrap();
        let ghost before = llvm_ir@;
        let r = emit_block(&mut llvm_ir, k, b);
        if r.is_err() {
            let e = r.unwrap_err();
            proof {
                assert(blocks_text(data, keys@.take(i as int + 1)) == Err::<Seq<char>, CompileError>(e));
                lemma_blocks_text_err_prefix(data, keys@, (i + 1) as int, e);
                assert(keys@.no_duplicates() && forall|k: ExpressionIdentifier| data.has(k) <==> keys@.contains(k));
            }
            return Err(e);
        }
        proof { assert(llvm_ir@ =~= PRELUDE@ + (blocks_text(data, keys@.take(i as int))->Ok_0 + block_text(k, data.block(k))->Ok_0)); }
        i += 1;
    }
    proof { assert(keys@.take(keys@.len() as int) =~= keys@); }
    let ghost o0 = llvm_ir@;
    push_str(&mut llvm_ir, "\n;; actual codegen over\n\ndefine void @main() {\n    call void ");
    let start_name = data.start().to_codegen_function_name();
    push_str(&mut llvm_ir, start_name.as_str());
    push_str(&mut llvm_ir, "()\n    ret void\n}");
    proof { assert(llvm_ir@ =~= o0 + main_text(data.start_key())); }
    Ok(llvm_ir)
}

/// An error in the first `n` instructions is the error of all of them.
proof fn lemma_ops_text_err_prefix(ops: Seq<Operator>, key: ExpressionIdentifier, n: int, e: CompileError)
    requires
        0 <= n <= ops.len(),
        ops_text(ops.take(n), key) == Err::<(Seq<char>, Seq<char>), CompileError>(e),
    ensures
        ops_text(ops, key) == Err::<(Seq<char>, Seq<char>), CompileError>(e),
    decreases ops.len() - n,
{
    if n < ops.len() {
        assert(ops.take(n + 1).drop_last() =~= ops.take(n));
        lemma_ops_text_err_prefix(ops, key, n + 1, e);
    } else {
        assert(ops.take(n) =~= ops);
    }
}

/// An error in the first `n` blocks is the error of all of them.
proof fn lemma_blocks_text_err_prefix(t: ExpressionTree, ks: Seq<ExpressionIdentifier>, n: int, e: CompileError)
    requires
        0 <= n <= ks.len(),
        blocks_text(t, ks.take(n)) == Err::<Seq<char>, CompileError>(e),
    ensures
        blocks_text(t, ks) == Err::<Seq<char>, CompileError>(e),
    decreases ks.len() - n,
{
    if n < ks.len() {
        assert(ks.take(n + 1).drop_last() =~= ks.take(n));
        lemma_blocks_text_err_prefix(t, ks, n + 1, e);
    } else {
        assert(ks.take(n) =~= ks);
    }
}

} // verus!
