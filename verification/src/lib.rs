//! GaiaCI: pipeline model, validation, dependency ordering and execution
//! bookkeeping for a Lua-driven CI runner, with verified contracts.
pub mod text;
pub mod strmap;
pub mod config;
pub mod step;
pub mod error;
pub mod graph;
pub mod validator;
pub mod critical;
pub mod levels;
pub mod executor;
pub mod parser;
pub mod definition;
pub mod lua_table;
pub mod sink;
pub mod lua_assert;
pub mod parallel;
pub mod runtime;
pub mod schedule;
pub mod lua_crypto;
pub mod format;
pub mod shell;
pub mod worker;
pub mod runner;
