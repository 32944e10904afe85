//! Small verified building blocks: a pool of workers around one job queue,
//! with the laws of its schedules; a search for lines of text; the routing
//! of a tiny web server; pig latin; modes and medians; a dice game.

pub mod counting;
pub mod dice;
pub mod grep;
pub mod http;
pub mod piglatin;
pub mod pool;
pub mod queue;
pub mod schedule;
pub mod screen;
pub mod slicing;
pub mod stats;
pub mod text;
pub mod worker;
