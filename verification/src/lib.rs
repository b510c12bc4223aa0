//! Prepares hand-written SQL queries for code generation.
//!
//! A query file is read into a module ([`grammar`]), checked against the
//! rules ([`validation`]) and, together with what the database reports of
//! each statement ([`pg`]), prepared ([`preparer`]): the types are registered
//! ([`type_registrar`]), and rows and parameter structs that queries share by
//! name are stored once ([`prepare_queries`]). The modules and the
//! user-defined types are then assembled into what an emitter consumes
//! ([`assembler`]). What holds of every preparation is stated in [`laws`].
//!
//! The library talks to no database and reads no file: its callers hand it
//! texts and descriptions and get values back.

pub mod assembler;
pub mod grammar;
pub mod laws;
pub mod named_table;
pub mod names;
pub mod parser;
pub mod pg;
pub mod prepare_queries;
pub mod preparer;
pub mod read_queries;
pub mod suite;
pub mod text;
pub mod type_registrar;
pub mod validation;
