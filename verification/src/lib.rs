//! Core of an embedded relational engine: catalog model, an order-preserving
//! table codec over a flat byte keyspace, transactional storage rules, a SQL
//! binder and a physical planner.
pub mod binder;
pub mod catalog;
pub mod execution;
pub mod expression;
pub mod parser;
pub mod planner;
pub mod storage;
pub mod types;
pub mod util;
