//! Decoding of compiled class files and execution of one method body on a
//! small operand-stack machine.
pub mod class_file;
pub mod code;
pub mod reader;

pub use class_file::{read_attributes, ClassFile, MalformedClassFile};
pub use code::{execute_code, run_method, CodeAttribute, ExecutionOutcome};
pub use reader::Cursor;
