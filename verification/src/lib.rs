pub mod token;
pub mod text;
pub mod grammar;
pub mod character_stream;
pub mod lexical;
pub mod scanner;
pub mod render;
pub mod parser;
