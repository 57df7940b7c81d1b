//! A small expression language over the named fields of a record: parsing,
//! binding against a record, and evaluation with mixed integer, decimal and
//! text arithmetic.
//!
//! A column of a table can be asked for as `name`, as `locationId * 2` or as
//! `sqrt(distance) + latitude`. The text is parsed into a tree
//! ([`parser::parse_expression`]), the fields it refers to are picked from
//! the schema ([`resolver::bindings_required`]) and bound to the values of a
//! record ([`record::FakeData::get_filtered_indexmap`]), and the tree is
//! reduced to a literal under that table ([`expression::Expression::eval`]).
//! [`compute`] does all of it for a list of texts and a list of records,
//! and [`columns`] takes the list of texts out of a request.
//!
//! Every function states what it returns over a mathematical model of its
//! arguments, and Verus proves that it returns that. The modules `lexer`,
//! `parser`, `evaluator` and `render` hold the definitions next to the code;
//! `round_trip`, `consistency` and `numeral` hold what follows from them.
//!
//! The library does no floating-point arithmetic. A decimal is a recipe
//! ([`expression::Decimal`]): the operations that yield it, in the order in
//! which to perform them. Which operations those are is decided and proved
//! here; to perform them is left to the reader of the result.

pub mod columns;
pub mod compute;
pub mod consistency;
pub mod data_csv;
pub mod evaluator;
pub mod expression;
pub mod lexer;
pub mod numeral;
pub mod parser;
pub mod record;
pub mod render;
pub mod resolver;
pub mod round_trip;
pub mod table;
