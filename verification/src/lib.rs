//! The decisions of a bandwidth saturator.
//!
//! The program measures the speed of a connection, saturates the connection with parallel
//! downloads where the speed is below a threshold, and rests in between. This library
//! decides all of that; the program around it does the network work and hands back what
//! came of it.
//!
//! - [`session`], [`sources`], [`mode`]: which sources to try;
//! - [`probe`], [`ranking`], [`selection`]: which of them to use;
//! - [`worker`], [`requests`]: what each parallel download asks for;
//! - [`meter`]: how the speed is followed and when a download ends;
//! - [`monitor`]: when to check, to saturate and to rest;
//! - [`panel`]: the state of the window;
//! - [`config`], [`rate`], [`span`], [`status`], [`text`], [`messages`]: the values that
//!   these work on, and the lines that users read.

pub mod config;
pub mod messages;
pub mod meter;
pub mod mode;
pub mod monitor;
pub mod panel;
pub mod probe;
pub mod ranking;
pub mod rate;
pub mod requests;
pub mod selection;
pub mod session;
pub mod sources;
pub mod span;
pub mod status;
pub mod text;
pub mod worker;

pub use config::Config;
pub use meter::CycleResult;
pub use mode::SelectionMode;
pub use selection::select_available_url;
pub use selection::SelectionResult;
pub use sources::build_candidate_urls;
pub use sources::DEFAULT_TEST_URL;
pub use sources::DEFAULT_TEST_URLS;
