pub mod digits;
pub mod keyspace;
pub mod orchestrator;
pub mod output;
pub mod progress;
pub mod sampler;
mod strutil;
