//! A small grid world of tiles and robots: validated movement, a shared
//! world aggregate, a textual snapshot codec, and the pure decision logic
//! behind the remote interface and the interactive control loop.

pub mod adapter;
pub mod cli;
pub mod control;
pub mod moveable;
pub mod position;
pub mod robot;
pub mod run;
pub mod snapshot;
pub mod text;
pub mod world;
