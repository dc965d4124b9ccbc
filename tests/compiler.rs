use befreak_compiler::codegen::{compile, operator_to_llvm_ir, string_llvm_ir, string_to_i32_arr, PRELUDE};
use befreak_compiler::error::CompileError;
use befreak_compiler::graph::{get_start_pos, parse_code, parse_expression, Branches, Operator};
use befreak_compiler::grid::Grid;
use befreak_compiler::lexer::{parse_operator, Directions, OperatorSymbol};
use befreak_compiler::machine::{dual_of, Primitive, StackMachine};
use befreak_compiler::position::{Direction, ExpressionIdentifier, Position};

fn grid(lines: &[&str]) -> Grid {
    let rows: Vec<Vec<char>> = lines.iter().map(|l| l.chars().collect()).collect();
    Grid::from_lines(&rows)
}

fn key(x: usize, y: usize, d: Direction, inverse: bool) -> ExpressionIdentifier {
    ExpressionIdentifier::new(inverse, Position(x, y), d)
}

#[test]
fn grid_pads_short_rows_with_blanks() {
    let g = grid(&["@(", "(((("]);
    assert_eq!(g.width(), 4);
    assert_eq!(g.height(), 2);
    assert_eq!(g.get(Position(1, 0)), Some('('));
    assert_eq!(g.get(Position(3, 0)), Some(' '));
    assert_eq!(g.get(Position(3, 1)), Some('('));
    assert_eq!(g.get(Position(4, 1)), None);
    assert_eq!(g.get(Position(0, 2)), None);
}

#[test]
fn step_moves_one_cell() {
    let p = Position(3, 5);
    assert_eq!(p.step(Direction::North), Position(3, 4));
    assert_eq!(p.step(Direction::South), Position(3, 6));
    assert_eq!(p.step(Direction::East), Position(4, 5));
    assert_eq!(p.step(Direction::West), Position(2, 5));
    assert_eq!(Position(0, 0).step(Direction::West), Position(usize::MAX, 0));
}

#[test]
fn number_literal_is_scanned_greedily() {
    let g = grid(&["42("]);
    let mut p = Position(0, 0);
    let r = parse_operator(&mut p, Direction::East, &g);
    assert!(matches!(r, Ok((OperatorSymbol::Number(42), Directions::Continue(Direction::East)))));
    assert_eq!(p, Position(1, 0));
}

#[test]
fn number_literal_read_westwards() {
    let g = grid(&["(123"]);
    let mut p = Position(3, 0);
    let r = parse_operator(&mut p, Direction::West, &g);
    assert!(matches!(r, Ok((OperatorSymbol::Number(321), Directions::Continue(Direction::West)))));
    assert_eq!(p, Position(1, 0));
}

#[test]
fn string_literal_lands_on_closing_quote() {
    let g = grid(&["\"hi\"("]);
    let mut p = Position(0, 0);
    let r = parse_operator(&mut p, Direction::East, &g);
    match r {
        Ok((OperatorSymbol::String(s), Directions::Continue(Direction::East))) => assert_eq!(s, "hi"),
        _ => panic!("expected a string literal"),
    }
    assert_eq!(p, Position(3, 0));
}

#[test]
fn number_running_off_the_grid_is_an_error() {
    let g = grid(&["(42"]);
    let mut p = Position(1, 0);
    let r = parse_operator(&mut p, Direction::East, &g);
    assert!(matches!(r, Err(CompileError::OutOfBoundsLiteral { position: Position(1, 0) })));
}

#[test]
fn unterminated_string_is_an_error() {
    let g = grid(&["(\"ab"]);
    let mut p = Position(1, 0);
    let r = parse_operator(&mut p, Direction::East, &g);
    assert!(matches!(r, Err(CompileError::OutOfBoundsLiteral { position: Position(1, 0) })));
}

#[test]
fn unknown_glyph_is_an_error() {
    let g = grid(&["@(Z"]);
    let mut p = Position(2, 0);
    let r = parse_operator(&mut p, Direction::East, &g);
    assert!(matches!(r, Err(CompileError::InvalidCharacter { ch: 'Z', position: Position(2, 0) })));
    assert!(matches!(parse_code(&g), Err(CompileError::InvalidCharacter { ch: 'Z', position: Position(2, 0) })));
}

#[test]
fn off_grid_cell_halts() {
    let g = grid(&["@("]);
    let mut p = Position(2, 0);
    let r = parse_operator(&mut p, Direction::East, &g);
    assert!(matches!(r, Ok((OperatorSymbol::Halt, Directions::Halt))));
}

#[test]
fn mirrors_reflect() {
    let g = grid(&["\\/"]);
    let mut p = Position(0, 0);
    assert!(matches!(parse_operator(&mut p, Direction::East, &g), Ok((OperatorSymbol::Mirror1, Directions::Continue(Direction::South)))));
    let mut p = Position(1, 0);
    assert!(matches!(parse_operator(&mut p, Direction::East, &g), Ok((OperatorSymbol::Mirror2, Directions::Continue(Direction::North)))));
    let mut p = Position(1, 0);
    assert!(matches!(parse_operator(&mut p, Direction::West, &g), Ok((OperatorSymbol::Mirror2, Directions::Continue(Direction::South)))));
}

#[test]
fn missing_start_is_an_error() {
    let g = grid(&["(())"]);
    assert!(matches!(get_start_pos(&g), Err(CompileError::MissingStart)));
    assert!(matches!(parse_code(&g), Err(CompileError::MissingStart)));
}

#[test]
fn multiple_starts_are_an_error() {
    let g = grid(&["@(", " @"]);
    assert!(matches!(get_start_pos(&g), Err(CompileError::MultipleStart)));
    assert!(matches!(parse_code(&g), Err(CompileError::MultipleStart)));
}

#[test]
fn start_is_found() {
    let g = grid(&["  ", " @"]);
    assert_eq!(get_start_pos(&g).unwrap(), Position(1, 1));
}

fn symbols(ops: &[Operator]) -> Vec<String> {
    ops.iter().map(|o| format!("{:?}", o.operation)).collect()
}

#[test]
fn straight_line_program_is_one_block() {
    let g = grid(&["@(())"]);
    let tree = parse_code(&g).unwrap();
    let start = key(1, 0, Direction::East, false);
    assert_eq!(tree.start(), start);
    assert_eq!(tree.keys(), vec![start]);
    let block = tree.get(start).unwrap();
    assert_eq!(symbols(&block.arr), vec!["PushZero", "PushZero", "PopZero", "PopZero", "Halt"]);
    assert_eq!(block.next, Branches::Halt);
    let text = compile(tree).unwrap();
    let calls: Vec<&str> = text[PRELUDE.len()..].lines().map(|l| l.trim()).filter(|l| l.starts_with("call")).collect();
    assert_eq!(
        calls,
        vec![
            "call void @bf_PushZero()",
            "call void @bf_PushZero()",
            "call void @bf_PopZero()",
            "call void @bf_PopZero()",
            "call void @bf_cg_1_0_E_normal()",
        ]
    );
    assert!(!text[PRELUDE.len()..].contains("br i1"));
}

#[test]
fn straight_line_program_text() {
    let g = grid(&["@("]);
    let text = compile(parse_code(&g).unwrap()).unwrap();
    assert!(text.starts_with(PRELUDE));
    assert_eq!(
        &text[PRELUDE.len()..],
        "define void @bf_cg_1_0_E_normal() {\n    call void @bf_PushZero()\n      ret void\n}\n\n\n;; actual codegen over\n\ndefine void @main() {\n    call void @bf_cg_1_0_E_normal()\n    ret void\n}"
    );
}

#[test]
fn east_glyph_entered_westwards_branches_north_then_south() {
    let g = grid(&["   ", "  >", "   "]);
    let fwd = parse_expression(&g, Position(2, 1), Direction::West, false).unwrap();
    assert_eq!(symbols(&fwd.arr), vec!["EastBranch"]);
    assert_eq!(fwd.next, Branches::Two(key(2, 0, Direction::North, false), key(2, 2, Direction::South, false)));
    let inv = parse_expression(&g, Position(2, 1), Direction::West, true).unwrap();
    assert_eq!(inv.next, Branches::Two(key(2, 2, Direction::South, true), key(2, 0, Direction::North, true)));
}

#[test]
fn every_branch_glyph_swaps_its_arms_in_inverse_mode() {
    let cases = [
        ('>', Direction::West, Direction::North, Direction::South),
        ('<', Direction::East, Direction::South, Direction::North),
        ('v', Direction::North, Direction::East, Direction::West),
        ('^', Direction::South, Direction::West, Direction::East),
        ('J', Direction::East, Direction::South, Direction::East),
    ];
    for (c, entry, a, b) in cases {
        let row = format!(" {} ", c);
        let g = grid(&["   ", &row, "   "]);
        let here = Position(1, 1);
        let fwd = parse_expression(&g, here, entry, false).unwrap();
        let inv = parse_expression(&g, here, entry, true).unwrap();
        assert_eq!(fwd.next, Branches::Two(key(here.step(a).0, here.step(a).1, a, false), key(here.step(b).0, here.step(b).1, b, false)));
        assert_eq!(inv.next, Branches::Two(key(here.step(b).0, here.step(b).1, b, true), key(here.step(a).0, here.step(a).1, a, true)));
    }
}

#[test]
fn two_cell_loop_terminates() {
    let g = grid(&["@J", " v"]);
    let tree = parse_code(&g).unwrap();
    let mut keys = tree.keys();
    keys.sort_by_key(|k| (k.position.0, k.position.1, k.inverse_mode));
    assert_eq!(keys.len(), 5);
    for k in &keys {
        let block = tree.get(*k).unwrap();
        match block.next {
            Branches::Two(a, b) => {
                assert!(tree.get(a).is_some());
                assert!(tree.get(b).is_some());
            }
            Branches::One(a) => assert!(tree.get(a).is_some()),
            Branches::Halt => {}
        }
    }
    let back = tree.get(key(1, 1, Direction::South, true)).unwrap();
    assert_eq!(symbols(&back.arr), vec!["SouthBranch", "SwapStacks"]);
    assert_eq!(back.next, Branches::Two(key(1, 1, Direction::South, false), key(2, 0, Direction::East, false)));
}

#[test]
fn mirror_cycle_ends_with_a_jump() {
    let g = grid(&["/\\", "\\/"]);
    let block = parse_expression(&g, Position(0, 0), Direction::North, false).unwrap();
    assert_eq!(block.arr.len(), 4);
    assert_eq!(block.next, Branches::One(key(0, 0, Direction::North, false)));
}

#[test]
fn function_name_names_every_component() {
    assert_eq!(key(3, 14, Direction::North, true).to_codegen_function_name(), "@bf_cg_3_14_N_inverse");
    assert_eq!(key(0, 7, Direction::West, false).to_codegen_function_name(), "@bf_cg_0_7_W_normal");
}

#[test]
fn string_codes_as_i32_list() {
    assert_eq!(string_to_i32_arr("hi"), "i32 104, i32 105");
    assert_eq!(string_to_i32_arr("A"), "i32 65");
    assert_eq!(string_to_i32_arr(""), "");
}

#[test]
fn string_code_uses_length_and_name() {
    let code = string_llvm_ir("abc", "s0");
    assert!(code.contains("%str = load [3 x i32], i32* @s0\n"));
    assert!(code.contains("store [3 x i32] %str, ptr %ptr"));
    assert!(code.contains("call void @increment_stack(i32 2) ; len - 1"));
}

fn lower_one(op: OperatorSymbol, d: Direction, inverse: bool) -> Result<(String, String), CompileError> {
    let mut body = String::new();
    let mut epi = String::new();
    let operator = Operator { operation: op, position: Position(0, 0), in_direction: d, inverse };
    operator_to_llvm_ir(&mut body, &mut epi, &operator, key(0, 0, d, inverse), 2)?;
    Ok((body, epi))
}

#[test]
fn instructions_lower_to_their_primitive_or_its_dual() {
    assert_eq!(lower_one(OperatorSymbol::Add, Direction::East, false).unwrap().0, "\n    call void @bf_Add()");
    assert_eq!(lower_one(OperatorSymbol::Add, Direction::East, true).unwrap().0, "\n    call void @bf_Subtract()");
    assert_eq!(lower_one(OperatorSymbol::Dig, Direction::East, true).unwrap().0, "\n    call void @bf_Bury()");
    assert_eq!(lower_one(OperatorSymbol::Number(7), Direction::East, true).unwrap().0, "\n    call void @bf_Number(i32 7)");
    assert_eq!(lower_one(OperatorSymbol::EastBranch, Direction::North, false).unwrap().0, "\n    call void @push_control_stack(i32 1)");
    assert_eq!(lower_one(OperatorSymbol::EastBranch, Direction::North, true).unwrap().0, "\n    call void @push_control_stack(i32 0)");
    assert_eq!(lower_one(OperatorSymbol::EastBranch, Direction::East, true).unwrap().0, "\n    call void @toggle_control_stack()");
    assert_eq!(lower_one(OperatorSymbol::Mirror1, Direction::East, false).unwrap(), (String::new(), String::new()));
}

#[test]
fn string_literal_lowering_adds_a_constant() {
    let (body, epi) = lower_one(OperatorSymbol::String("hi".to_string()), Direction::East, false).unwrap();
    assert!(body.starts_with("\n    \n    ; STRING CODE BEGIN"));
    assert!(body.contains("i32* @bf_str_0_0_E_normal_2\n"));
    assert_eq!(epi, "\n@bf_str_0_0_E_normal_2 = private unnamed_addr constant [2 x i32] [i32 104, i32 105], align 4\n");
}

#[test]
fn inverse_io_is_unsupported() {
    for op in [OperatorSymbol::Write, OperatorSymbol::Read, OperatorSymbol::String("x".to_string())] {
        let r = lower_one(op, Direction::South, true);
        assert_eq!(r, Err(CompileError::UnsupportedInverseOperation { key: key(0, 0, Direction::South, true) }));
    }
    let g = grid(&["@?w"]);
    let r = compile(parse_code(&g).unwrap());
    assert_eq!(r, Err(CompileError::UnsupportedInverseOperation { key: key(1, 0, Direction::East, false) }));
}

fn machine(main: &[i32], control: &[i32]) -> StackMachine {
    StackMachine { main: main.to_vec(), control: control.to_vec() }
}

fn round_trip(p: Primitive, main: &[i32], control: &[i32]) {
    let mut m = machine(main, control);
    m.apply(p);
    m.apply(dual_of(p));
    assert_eq!(m.main, main.to_vec(), "{:?}", p);
    assert_eq!(m.control, control.to_vec(), "{:?}", p);
}

#[test]
fn self_inverse_primitives_restore_the_stacks() {
    round_trip(Primitive::Number(42), &[7, 1000], &[1]);
    round_trip(Primitive::Duplicate, &[3, -9], &[]);
    round_trip(Primitive::Unduplicate, &[3, 5, 5], &[]);
    round_trip(Primitive::EqualityCheck, &[4, 4], &[0]);
    round_trip(Primitive::LessThanCheck, &[1, 4], &[1]);
    round_trip(Primitive::GreaterThanCheck, &[9, 4], &[0]);
    round_trip(Primitive::SwapStacks, &[1, 2], &[3, 4]);
    round_trip(Primitive::Not, &[12345], &[]);
    round_trip(Primitive::SwapTop, &[1, 2, 3], &[]);
    round_trip(Primitive::SwapLower, &[1, 2, 3], &[]);
    round_trip(Primitive::FlipControl, &[], &[0, 1]);
}

#[test]
fn mutually_inverse_primitives_restore_the_stacks() {
    round_trip(Primitive::Increment, &[i32::MAX], &[]);
    round_trip(Primitive::Decrement, &[i32::MIN], &[]);
    round_trip(Primitive::Add, &[i32::MAX, 5], &[]);
    round_trip(Primitive::Subtract, &[-4, 9], &[]);
    round_trip(Primitive::Divide, &[-17, 5], &[]);
    round_trip(Primitive::Divide, &[i32::MIN, 3], &[]);
    round_trip(Primitive::Multiply, &[-3, -2, 5], &[]);
    round_trip(Primitive::RotateLeft, &[0x1234_5678, 12], &[]);
    round_trip(Primitive::RotateRight, &[-2, 33], &[]);
    round_trip(Primitive::Dig, &[1, 2, 3, 4], &[]);
    round_trip(Primitive::Bury, &[1, 2, 3, 4], &[]);
    round_trip(Primitive::Over, &[6, 7], &[]);
    round_trip(Primitive::Under, &[6, 7, 6], &[]);
    round_trip(Primitive::PopMainToControl, &[8], &[1]);
    round_trip(Primitive::PopControlToMain, &[8], &[1]);
    round_trip(Primitive::PushZero, &[], &[]);
    round_trip(Primitive::PopZero, &[0], &[]);
}

#[test]
fn primitive_effects_are_exact() {
    let mut m = machine(&[-17, 5], &[]);
    m.apply(Primitive::Divide);
    assert_eq!(m.main, vec![-3, -2, 5]);
    let mut m = machine(&[1, 4], &[]);
    m.apply(Primitive::RotateLeft);
    assert_eq!(m.main, vec![16, 4]);
    let mut m = machine(&[10, 3], &[]);
    m.apply(Primitive::Add);
    assert_eq!(m.main, vec![13, 3]);
    let mut m = machine(&[1, 2, 3], &[]);
    m.apply(Primitive::Dig);
    assert_eq!(m.main, vec![2, 3, 1]);
    let mut m = machine(&[5, 5], &[7]);
    m.apply(Primitive::EqualityCheck);
    assert_eq!(m.control, vec![0]);
    let mut m = machine(&[6, 0], &[]);
    m.apply(Primitive::Number(3));
    assert_eq!(m.main, vec![6, 3]);
    let mut m = StackMachine::new();
    m.apply(Primitive::PushControl(true));
    assert_eq!(m.control, vec![1]);
}

#[test]
fn west_entered_east_glyph_from_the_start() {
    let g = grid(&["@\\", ">/"]);
    let tree = parse_code(&g).unwrap();
    let block = tree.get(tree.start()).unwrap();
    assert_eq!(symbols(&block.arr), vec!["Mirror1", "Mirror2", "EastBranch"]);
    assert_eq!(block.next, Branches::Two(key(0, 0, Direction::North, false), key(0, 2, Direction::South, false)));
}

#[test]
fn west_entered_east_glyph_in_inverse_mode_from_the_start() {
    let g = grid(&["@?\\", " >/"]);
    let tree = parse_code(&g).unwrap();
    let block = tree.get(tree.start()).unwrap();
    assert_eq!(symbols(&block.arr), vec!["InverseMode", "Mirror1", "Mirror2", "EastBranch"]);
    assert_eq!(block.next, Branches::Two(key(1, 2, Direction::South, true), key(1, 0, Direction::North, true)));
    let text = compile(tree).unwrap();
    assert!(text.contains("branch_1:\n    call void @bf_cg_1_2_S_inverse()\n    ret void\nbranch_0:\n    call void @bf_cg_1_0_N_inverse()"));
}

#[test]
fn number_literal_block_resumes_after_last_digit() {
    let g = grid(&["@12("]);
    let tree = parse_code(&g).unwrap();
    assert_eq!(tree.keys(), vec![key(1, 0, Direction::East, false)]);
    let block = tree.get(tree.start()).unwrap();
    assert_eq!(symbols(&block.arr), vec!["Number(12)", "PushZero", "Halt"]);
    assert_eq!(block.next, Branches::Halt);
}

#[test]
fn unreached_bad_cells_do_not_fail() {
    let g = grid(&["@(", "Z\"", "1 "]);
    let tree = parse_code(&g).unwrap();
    assert_eq!(tree.keys(), vec![key(1, 0, Direction::East, false)]);
}

#[test]
fn empty_string_literal_pushes_nothing() {
    assert_eq!(string_llvm_ir("", "s0"), "");
    assert_eq!(lower_one(OperatorSymbol::String(String::new()), Direction::East, false).unwrap(), (String::new(), String::new()));
}

#[test]
fn failed_lowering_leaves_outputs_unchanged() {
    let mut body = String::from("kept");
    let mut epi = String::from("also kept");
    let operator = Operator { operation: OperatorSymbol::Write, position: Position(0, 0), in_direction: Direction::East, inverse: true };
    assert!(operator_to_llvm_ir(&mut body, &mut epi, &operator, key(0, 0, Direction::East, true), 0).is_err());
    assert_eq!(body, "kept");
    assert_eq!(epi, "also kept");
}
