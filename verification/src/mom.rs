//! The Slack bot: its skills, its sandbox, the events it reads from Slack
//! and the state it keeps per channel.

pub mod sandbox;
pub mod skills;
pub mod slack;
pub mod state;
