//! An embedded key-value database engine with typed, composite primary keys.
//!
//! Databases hold tables, and a table holds records under the key that its
//! declared key fields make. The crate holds the rules of the engine and does
//! no input or output and no floating-point arithmetic of its own: every
//! operation is a sequence of steps, and each step either asks the host for
//! one piece of work on the stores or ends the operation with its result.

pub mod behaviour;
pub mod db;
pub mod engine;
pub mod errors;
pub mod ids;
pub mod json;
pub mod model;
pub mod numbers;
pub mod params;
pub mod pk;
pub mod protocol;
pub mod range;
pub mod records;
pub mod schema;
pub mod system_db;
pub mod text;
