pub mod span;
pub mod offsets;
pub mod lexer;
pub mod parser;
pub mod shape;
pub mod errors;
pub mod eval;
pub mod table;
pub mod grid;
pub mod nodes;
pub mod project;
pub mod studio;
pub mod render;
