use funge::error::Error;
use funge::interpreter::Delta;
use funge::interpreter::Grid;
use funge::interpreter::Ip;
use funge::interpreter::debugger::DebugMode;
use funge::interpreter::debugger::Debugger;
use funge::interpreter::value::DynamicValue;
use funge::interpreter::value::StackValue;
use funge::ip::IP;
use funge::optimizer::OptimizationLevel;

fn rows(src: &[&str]) -> Vec<Vec<char>> {
    src.iter().map(|r| r.chars().collect()).collect()
}

#[test]
fn grid_rejects_unequal_rows() {
    let result = Grid::new(rows(&["ab", "a"]));
    assert!(matches!(result, Err(Error::GridShape)));
}

#[test]
fn grid_rejects_empty_input() {
    assert!(matches!(Grid::new(Vec::<Vec<char>>::new()), Err(Error::GridShape)));
    assert!(matches!(Grid::new(rows(&[""])), Err(Error::GridShape)));
}

#[test]
fn from_lines_pads_ragged_rows_with_spaces() {
    let grid = Grid::from_lines(rows(&["ab", "a"])).unwrap();
    let ip = grid.ip();
    assert_eq!((ip.w, ip.h), (2, 2));
    let below = Ip::new(1, 1, 2, 2);
    assert_eq!(*grid.at(&below), ' ');
    let first = Ip::new(1, 0, 2, 2);
    assert_eq!(*grid.at(&first), 'b');
}

#[test]
fn from_lines_rejects_sources_without_cells() {
    assert!(matches!(Grid::from_lines(Vec::<Vec<char>>::new()), Err(Error::GridShape)));
    assert!(matches!(Grid::from_lines(rows(&["", ""])), Err(Error::GridShape)));
}

#[test]
fn advance_wraps_on_both_axes() {
    let mut ip = Ip::new(0, 0, 3, 2);
    ip.advance(Delta::Left);
    assert_eq!((ip.x, ip.y), (2, 0));
    ip.advance(Delta::Up);
    assert_eq!((ip.x, ip.y), (2, 1));
    ip.advance(Delta::Right);
    assert_eq!((ip.x, ip.y), (0, 1));
    ip.advance(Delta::Down);
    assert_eq!((ip.x, ip.y), (0, 0));
}

#[test]
fn one_cell_grid_advance_returns_to_the_same_cell() {
    let mut ip = Ip::new(0, 0, 1, 1);
    ip.advance(Delta::Right);
    assert_eq!((ip.x, ip.y), (0, 0));
    ip.advance(Delta::Up);
    assert_eq!((ip.x, ip.y), (0, 0));
}

#[test]
fn toroidal_cycle_returns_to_the_start() {
    // A pointer walking right along the top row of a 4 by 2 torus, down,
    // back left, and up visits the cycle's length of cells and returns to
    // its starting cell.
    let start = Ip::new(0, 0, 4, 2);
    let mut ip = start;
    for _ in 0..3 {
        ip.advance(Delta::Right);
    }
    ip.advance(Delta::Down);
    for _ in 0..3 {
        ip.advance(Delta::Left);
    }
    ip.advance(Delta::Up);
    assert_eq!(ip, start);
}

#[test]
fn heading_pointer_turns_and_flips() {
    let mut ip = IP::new(2, 1, 1, 0);

    ip.rotate_right();
    assert_eq!((ip.dx, ip.dy), (0, -1));

    ip.rotate_left();
    assert_eq!((ip.dx, ip.dy), (1, 0));

    ip.flip();
    assert_eq!((ip.dx, ip.dy), (-1, 0));

    ip.left();
    assert_eq!((ip.dx, ip.dy), (-1, 0));
    ip.up();
    assert_eq!((ip.dx, ip.dy), (0, -1));
    ip.right();
    ip.down();
    assert_eq!((ip.dx, ip.dy), (0, 1));
}

#[test]
fn heading_pointer_advance_wraps() {
    let mut ip = IP::new(0, 0, -1, -1);
    ip.advance(4, 3);
    assert_eq!((ip.x, ip.y), (3, 2));
    ip.advance(4, 3);
    assert_eq!((ip.x, ip.y), (2, 1));
}

#[test]
fn heading_pointer_step_constructors() {
    let ip = IP::new(0, 0, 1, 0);
    assert_eq!(ip.new_straight(3, 3), IP::new(1, 0, 1, 0));
    assert_eq!(ip.new_turn_right(3, 3), IP::new(0, 2, 0, -1));
    assert_eq!(ip.new_turn_left(3, 3), IP::new(0, 1, 0, 1));
    assert_eq!(ip.new_left(3, 3), IP::new(2, 0, -1, 0));
    assert_eq!(ip.new_right(3, 3), IP::new(1, 0, 1, 0));
    assert_eq!(ip.new_up(3, 3), IP::new(0, 2, 0, -1));
    assert_eq!(ip.new_down(3, 3), IP::new(0, 1, 0, 1));
    assert_eq!(ip.delta(), (1, 0));
}

#[test]
fn symbolic_constructors_build_unsimplified_trees() {
    let sum = StackValue::add(StackValue::Const(1), StackValue::Const(2));
    match sum {
        StackValue::Dynamic(DynamicValue::Add(l, r)) => {
            assert_eq!(*l, StackValue::Const(1));
            assert_eq!(*r, StackValue::Const(2));
        }
        other => panic!("expected a symbolic sum, got {:?}", other),
    }

    let product = StackValue::mul(StackValue::Const(3), StackValue::Const(4));
    assert!(matches!(product, StackValue::Dynamic(DynamicValue::Mul(_, _))));
    let difference = StackValue::sub(StackValue::Const(5), StackValue::Const(6));
    assert!(matches!(difference, StackValue::Dynamic(DynamicValue::Sub(_, _))));

    let from: StackValue = StackValue::from(65);
    assert_eq!(from, StackValue::Const(65));
}

#[test]
fn optimization_level_parses_the_two_accepted_flags() {
    assert!(matches!(OptimizationLevel::parse(""), Ok(OptimizationLevel::All)));
    assert!(matches!(OptimizationLevel::parse("0"), Ok(OptimizationLevel::Off)));
    match OptimizationLevel::parse("3") {
        Err(Error::InvalidOptimization(text)) => assert_eq!(text, "3"),
        other => panic!("expected an invalid-optimization error, got {:?}", other),
    }
}

#[test]
fn debugger_obeys_step_commands() {
    let core = Debugger::stage(false, false);
    let mut debugger = core.debugger;
    assert_eq!(debugger.mode, DebugMode::Step);
    assert!(!debugger.trace);

    debugger.apply_command("t");
    assert!(debugger.trace);
    debugger.apply_command("t");
    assert!(!debugger.trace);

    debugger.apply_command("step");
    assert_eq!(debugger.mode, DebugMode::Step);

    debugger.apply_command("c");
    assert_eq!(debugger.mode, DebugMode::Continue);

    let continuous = Debugger::stage(true, true);
    assert_eq!(continuous.debugger.mode, DebugMode::Continue);
    assert!(continuous.debugger.trace);
}
