use funge::compiler::Compiler;
use funge::compiler::ir::Action;
use funge::compiler::ir::ActionValue;
use funge::compiler::ir::Block;
use funge::compiler::ir::End;
use funge::error::Error;
use funge::interpreter::Grid;
use funge::interpreter::error::Error as InterpreterError;
use funge::interpreter::value::DynamicValue;
use funge::optimizer::OptimizationLevel;
use funge::optimizer::Optimizer;
use funge::optimizer::pass::StringPrintPass;
use funge::translator::ends_valid;
use funge::translator::tags_resolved;

fn grid(rows: &[&str]) -> Grid<char> {
    let lines: Vec<Vec<char>> = rows.iter().map(|r| r.chars().collect()).collect();
    Grid::from_lines(lines).expect("the program grid should be well formed")
}

fn compile(rows: &[&str]) -> Result<Vec<Block>, Error> {
    Compiler::new().run(grid(rows))
}

fn out_char(c: char) -> Action {
    Action::OutputChar(ActionValue::Const(c as i32))
}

#[test]
fn hello_world_with_jump_over_end() {
    let blocks = compile(&["0\"olleH\">:#,_@"]).unwrap();
    assert_eq!(blocks.len(), 1);
    assert_eq!(
        blocks[0].actions,
        vec![out_char('H'), out_char('e'), out_char('l'), out_char('l'), out_char('o')]
    );
    assert_eq!(blocks[0].end, End::End);
}

#[test]
fn stringmode_pushes_in_source_order_and_pops_reversed() {
    let blocks = compile(&["\"ABC\",,,@"]).unwrap();
    assert_eq!(blocks.len(), 1);
    assert_eq!(blocks[0].actions, vec![out_char('C'), out_char('B'), out_char('A')]);
    assert_eq!(blocks[0].end, End::End);
}

#[test]
fn constant_folding_emits_single_constant_output() {
    let blocks = compile(&["22+,@"]).unwrap();
    assert_eq!(blocks.len(), 1);
    assert_eq!(blocks[0].actions, vec![Action::OutputChar(ActionValue::Const(4))]);
    assert_eq!(blocks[0].end, End::End);
}

#[test]
fn subtraction_takes_the_top_as_minuend() {
    // `5` then `a` leaves 10 on top; the interpreter pops the minuend
    // first, so the difference is 10 - 5.
    let blocks = compile(&["5a-,@"]).unwrap();
    assert_eq!(blocks[0].actions, vec![Action::OutputChar(ActionValue::Const(5))]);
}

#[test]
fn multiplication_folds_constants() {
    let blocks = compile(&["35*,@"]).unwrap();
    assert_eq!(blocks[0].actions, vec![Action::OutputChar(ActionValue::Const(15))]);
}

#[test]
fn once_stringmode_captures_one_character() {
    let blocks = compile(&["'a,@"]).unwrap();
    assert_eq!(blocks.len(), 1);
    assert_eq!(blocks[0].actions, vec![out_char('a')]);
}

#[test]
fn pop_on_empty_stack_yields_zero() {
    let blocks = compile(&[",@"]).unwrap();
    assert_eq!(blocks.len(), 1);
    assert_eq!(blocks[0].actions, vec![Action::OutputChar(ActionValue::Const(0))]);
}

#[test]
fn symbolic_input_branch_produces_two_reachable_edges() {
    let blocks = compile(&["~_@"]).unwrap();
    assert_eq!(blocks.len(), 3);

    // Block 0 reads one byte and branches on it: zero goes right to block
    // 1, non-zero goes left to block 2.
    assert_eq!(blocks[0].actions, vec![Action::Input(0)]);
    assert_eq!(
        blocks[0].end,
        End::If(ActionValue::Dynamic(DynamicValue::Tagged(0)), 1, 2)
    );

    // The right branch falls straight onto the end sentinel.
    assert!(blocks[1].actions.is_empty());
    assert_eq!(blocks[1].end, End::End);

    // The left branch passes the input cell again before wrapping to the
    // end sentinel.
    assert_eq!(blocks[2].actions, vec![Action::Input(1)]);
    assert_eq!(blocks[2].end, End::End);
}

#[test]
fn unsupported_instruction_is_a_fatal_error() {
    let result = compile(&["~_A,@"]);
    match result {
        Err(Error::Interpreter(InterpreterError::UnimplementedInstruction(c))) => {
            assert_eq!(c, 'A');
        }
        other => panic!("expected an unimplemented-instruction error, got {:?}", other),
    }
}

#[test]
fn duplicate_then_add_reuses_the_materialized_tag() {
    let blocks = compile(&["~:+,@"]).unwrap();
    assert_eq!(blocks.len(), 1);
    assert_eq!(blocks[0].actions.len(), 3);
    assert_eq!(blocks[0].actions[0], Action::Input(0));
    assert_eq!(
        blocks[0].actions[1],
        Action::Tag(1, ActionValue::Dynamic(DynamicValue::Tagged(0)))
    );
    match &blocks[0].actions[2] {
        Action::OutputChar(ActionValue::Dynamic(DynamicValue::Add(l, r))) => {
            // Both operands name the same materialized tag.
            assert_eq!(**l, funge::interpreter::StackValue::Dynamic(DynamicValue::Tagged(1)));
            assert_eq!(**l, **r);
        }
        other => panic!("expected a symbolic addition output, got {:?}", other),
    }
    assert_eq!(blocks[0].end, End::End);
}

#[test]
fn truth_convention_nonzero_goes_left() {
    // With 1 on top, `_` sends the pointer left; it wraps over the unused
    // cell and lands on the end sentinel.
    let blocks = compile(&["1_@ "]).unwrap();
    assert_eq!(blocks.len(), 1);
    assert_eq!(blocks[0].actions, Vec::<Action>::new());
    assert_eq!(blocks[0].end, End::End);
}

#[test]
fn truth_convention_zero_goes_right() {
    // With 0 on top, `_` sends the pointer right, straight onto the end
    // sentinel.
    let blocks = compile(&["0_@ "]).unwrap();
    assert_eq!(blocks.len(), 1);
    assert_eq!(blocks[0].actions, Vec::<Action>::new());
    assert_eq!(blocks[0].end, End::End);
}

#[test]
fn compilation_is_deterministic_and_block_zero_is_the_entry() {
    let first = compile(&["~_@"]).unwrap();
    let second = compile(&["~_@"]).unwrap();
    assert_eq!(first, second);
    assert_eq!(first[0].actions, vec![Action::Input(0)]);
    for block in &first {
        if let End::If(_, t, f) = block.end {
            assert!(t < first.len());
            assert!(f < first.len());
        }
    }
}

#[test]
fn string_print_pass_coalesces_hello() {
    let blocks = compile(&["0\"olleH\">:#,_@"]).unwrap();
    let optimized = Optimizer::new(OptimizationLevel::All).run(blocks).unwrap();
    assert_eq!(optimized.len(), 1);
    assert_eq!(
        optimized[0].actions,
        vec![Action::OutputString(String::from("Hello"))]
    );
    assert_eq!(optimized[0].end, End::End);
}

#[test]
fn pass_through_level_keeps_blocks_untouched() {
    let blocks = compile(&["0\"olleH\">:#,_@"]).unwrap();
    let again = compile(&["0\"olleH\">:#,_@"]).unwrap();
    let kept = Optimizer::new(OptimizationLevel::Off).run(again).unwrap();
    assert_eq!(kept, blocks);
}

#[test]
fn string_print_pass_keeps_invalid_codes_verbatim() {
    let block = Block::new(
        vec![out_char('H'), Action::OutputChar(ActionValue::Const(-1)), out_char('i')],
        End::End,
    );
    let optimized = StringPrintPass::optimize_block(block);
    assert_eq!(
        optimized.actions,
        vec![
            Action::OutputString(String::from("H")),
            Action::OutputChar(ActionValue::Const(-1)),
            Action::OutputString(String::from("i")),
        ]
    );
}

#[test]
fn string_print_pass_never_reorders_reads() {
    let block = Block::new(
        vec![out_char('A'), Action::Input(0), out_char('B')],
        End::End,
    );
    let optimized = StringPrintPass::optimize_block(block);
    assert_eq!(
        optimized.actions,
        vec![
            Action::OutputString(String::from("A")),
            Action::Input(0),
            Action::OutputString(String::from("B")),
        ]
    );
}

#[test]
fn compiled_tables_resolve_their_tags() {
    let blocks = compile(&["~:+,@"]).unwrap();
    assert!(tags_resolved(&blocks));
    assert!(ends_valid(&blocks));

    let branching = compile(&["~_@"]).unwrap();
    assert!(tags_resolved(&branching));
    assert!(ends_valid(&branching));
}

#[test]
fn optimization_keeps_tables_translatable() {
    let blocks = compile(&["~:+,\"!ih\",,@"]).unwrap();
    let optimized = Optimizer::new(OptimizationLevel::All).run(blocks).unwrap();
    assert!(tags_resolved(&optimized));
    assert!(ends_valid(&optimized));
}

#[test]
fn unrecorded_tag_is_detected() {
    let bad = vec![Block::new(
        vec![Action::OutputChar(ActionValue::Dynamic(DynamicValue::Tagged(5)))],
        End::End,
    )];
    assert!(!tags_resolved(&bad));
}

#[test]
fn out_of_range_branch_target_is_detected() {
    let bad = vec![Block::new(
        vec![Action::Input(0)],
        End::If(ActionValue::Dynamic(DynamicValue::Tagged(0)), 0, 7),
    )];
    assert!(!ends_valid(&bad));
    assert!(tags_resolved(&bad));
}
