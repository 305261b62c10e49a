//! A two-pass assembler for the Hack machine language.
//!
//! A program is a list of lines. Each line holds an addressing instruction
//! (`@value`), a computation (`dest=comp;jump`), a label definition
//! (`(NAME)`), or nothing but white space and a comment. The first pass
//! binds every label to the address of the instruction that follows it; the
//! second pass binds each new symbol to the next free address from 16 on and
//! gives each instruction its word of 16 binary digits.
//!
//! [`assembler::assemble_lines`] does both passes on a list of lines.
//! [`assembler::HackAssembler`] does them one after the other, on the parts
//! that the other modules hold: the symbol table and the encoding tables in
//! [`table`], the line source in [`parser`], the encoder in [`code`]. The
//! grammar of a line is in [`syntax`], on the helpers of [`text`], and the
//! fixed vocabulary in [`mnemonics`]. What holds of every program is proved
//! in [`labels`], [`variables`] and [`words`].

pub mod assembler;
pub mod code;
pub mod error;
pub mod labels;
pub mod mnemonics;
pub mod parser;
pub mod syntax;
pub mod table;
pub mod text;
pub mod variables;
pub mod words;

pub use assembler::{assemble_lines, HackAssembler};
pub use code::Code;
pub use error::{AsmError, ErrorKind};
pub use parser::Parser;
pub use table::Table;
