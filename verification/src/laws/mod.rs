//! What the operations are for, said of the bytes that go in and of what comes out.
pub mod answers;
pub mod backends;
pub mod bodies;
pub mod calendar;
pub mod clients;
pub mod connections;
pub mod figures;
pub mod framing;
pub mod heads;
pub mod lines;
pub mod settings;
pub mod texts;
pub mod vectors;
pub mod verdicts;
