pub mod input;
pub mod tokenizer;
pub mod parser;
