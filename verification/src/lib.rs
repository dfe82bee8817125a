pub mod strings;
pub mod deserialization;
pub mod projects;
pub mod diagnostics;
pub mod parser;
pub mod js_parser;
pub mod compiler;
