//! A personal feed reader library: a subscription store with a bounded,
//! deduplicated, time-ordered item history per feed, a snapshot codec for
//! durable persistence, an article content formatter, and the decision
//! logic of the command-line front end.

pub mod cli;
pub mod error;
pub mod feed;
pub mod fetch;
pub mod format;
pub mod gui;
pub mod jsontext;
pub mod media;
pub mod merge;
pub mod snapshot;
pub mod store;
pub mod timefmt;
pub mod urlcheck;
