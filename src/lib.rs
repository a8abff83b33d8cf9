//! Parsing of robots exclusion documents into a queryable policy, with every anomaly that
//! the text holds kept for inspection.
pub mod text;
pub mod path_match;
pub mod order;
pub mod rule;
pub mod anomaly;
pub mod agent;
pub mod url;
pub mod robots;
pub mod parse;
pub mod guarantees;

pub use agent::UserAgent;
pub use anomaly::Anomaly;
pub use path_match::{match_with_asterisk, prefix_asterisk};
pub use robots::RobotsParser;
pub use rule::Rule;
