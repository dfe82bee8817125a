pub mod base;
pub mod path;
pub mod compiler;
pub mod visitors;
pub mod json_compiler;
pub mod js_compiler;
