pub mod args;
pub mod chars;
pub mod column;
pub mod counter;
pub mod escape;
pub mod eval;
pub mod explain;
pub mod field;
pub mod filter;
pub mod index;
pub mod integer;
pub mod io;
pub mod lexer;
pub mod matcher;
pub mod number;
pub mod output;
pub mod padding;
pub mod parse;
pub mod parser;
pub mod pattern;
pub mod range;
pub mod reader;
pub mod split;
pub mod substitution;
pub mod substr;
pub mod regexp;
pub mod run;
pub mod repetition;
pub mod switch;
pub mod text;
pub mod variable;
