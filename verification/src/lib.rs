//! A programmable HTTP load-testing engine: the statistics, the rules that
//! judge a response, the substitution of variables and the decisions that
//! drive a run, each with a machine-checked contract.

pub mod assertions;
pub mod engine;
pub mod error;
pub mod extractors;
pub mod http;
pub mod json;
pub mod outside;
pub mod plan;
pub mod results;
pub mod string_map;
pub mod text;
