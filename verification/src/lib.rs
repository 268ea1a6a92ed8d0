//! A URL-scheme dispatcher library: decides which locally installed manager
//! application owns a given protocol URL and how to deliver the URL to it,
//! and prepares the records needed to register the dispatcher as the
//! operating system's handler for the scheme.

pub mod cmdline;
pub mod codec;
pub mod logging;
pub mod config;
pub mod dispatch;
pub mod errors;
pub mod registry;
pub mod strmap;
pub mod text;
pub mod wide;
