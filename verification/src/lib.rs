//! A forward-chaining deductive database for synthetic Euclidean geometry.
//!
//! Points and initial predicates go in; the closure of the facts under a fixed
//! base of geometric rules comes out, each fact together with the set of ways
//! in which it can be justified.
//!
//! The pieces, from the leaves up:
//!
//! - [`orientation`]: the one condition that reads coordinates;
//! - [`order`], [`fact`], [`provenance`]: strings in order, facts and their
//!   identifiers, derivations and the lattice of their sets;
//! - [`rule`], [`rule_base`]: rules as data, what their closure is, and the
//!   rules of geometry;
//! - [`store`]: the relations with their provenance and index;
//! - [`context`], [`saturation`], [`capacity`], [`firing`], [`join`],
//!   [`seeding`], [`engine`]: the evaluator and what it maintains;
//! - [`interning`], [`readback`], [`database`]: the database that callers see;
//! - [`laws`]: what holds of every database after a run.

pub mod capacity;
pub mod context;
pub mod database;
pub mod engine;
pub mod fact;
pub mod firing;
pub mod interning;
pub mod join;
pub mod laws;
pub mod order;
pub mod orientation;
pub mod provenance;
pub mod readback;
pub mod rule;
pub mod rule_base;
pub mod saturation;
pub mod seeding;
pub mod store;
