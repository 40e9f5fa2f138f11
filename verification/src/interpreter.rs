//! The execution substrate: the toroidal grid, the instruction pointer, the
//! stack-value algebra and the symbolic interpreter core.

pub mod debugger;
pub mod error;
pub mod grid;
pub mod interpreter;
pub mod machine;
pub mod step;
pub mod value;

pub use self::debugger::Debugger;
pub use self::error::Error;
pub use self::interpreter::Interpreter;
pub use self::interpreter::NullDebugger;
pub use self::value::DynamicValue;
pub use self::value::StackValue;
pub use self::grid::Delta;
pub use self::grid::Grid;
pub use self::grid::Ip;
