//! A small game-scripting language: a parser, an entity/instance object model,
//! and a tree-walking interpreter that advances a population of entity
//! instances one tick at a time and yields draw and sound requests for a host.

mod ast;
mod fp;
mod interpreter;
mod object;
mod parser;
mod rng;
mod text;

pub use ast::{BinaryOperator, Declaration, Expression, Note, Pixel, Sprite, Statement, Tone};
pub use interpreter::{
    AssignmentTarget, ControlSignal, DisplayConfig, DrawOperation, Entity, EntityKind, Frame,
    FunctionDeclaration, InputReport, Interpreter, RuntimeError, Value, DESCRIBE_FUEL, EVAL_FUEL,
};
pub use object::{EntityId, Object};
pub use parser::{declaration, expression, parse, statement, ParseError};
pub use fp::{
    add_bits, bits_of_dec, bits_of_i64, bits_of_u64, dec_of_bits, div_bits, eq_bits, le_bits,
    lt_bits, mul_bits, round_i64_of, sub_bits,
};
