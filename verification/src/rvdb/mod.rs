pub mod text;
pub mod output;
pub mod printer;
pub mod print;
