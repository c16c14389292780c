//! Minigraf: a small bi-temporal graph database with a Datalog query language.
//!
//! This crate holds the verified core: the on-disk file header, the in-memory
//! page store, the EDN reader, the Datalog command parser with its safety
//! checks, the rule stratifier and the prepared-query slot checks.
pub mod text;
pub mod header;
pub mod edn;
pub mod types;
pub mod temporal;
pub mod clauses;
pub mod safety;
pub mod find;
pub mod facts;
pub mod command;
pub mod stratification;
pub mod storage;
pub mod file_store;
pub mod btree;
pub mod packed;
pub mod evaluator;
pub mod executor;
pub mod expression;
pub mod aggregation;
pub mod window;
pub mod server;
pub mod prepared;
pub mod functions;
pub mod substitute;
pub mod recursion;
pub mod stratified;
pub mod disjunction;
pub mod negation;
pub mod branch;
pub mod rule_application;
pub mod planning;
pub mod execution;
