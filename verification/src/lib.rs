//! Rules and aggregations of a private World Cup prediction game: scoring,
//! rankings, badges, standings and the small text helpers around them.

pub mod stage;
pub mod scoring;
pub mod text;
pub mod order;
pub mod ranking;
pub mod clock;
pub mod badges;
pub mod scoreboard;
pub mod notifier;
pub mod util;
pub mod prompt;
pub mod standings;
pub mod jersey;
pub mod leaderboard;
pub mod recap;
pub mod league;
pub mod store;
pub mod dashboard;
pub mod forms;
pub mod tipping;
pub mod devtools;
pub mod admin;
pub mod news;
pub mod config;
pub mod notifications;
pub mod users;
pub mod predictions;
pub mod specials;
pub mod invites;
pub mod reports;
pub mod fixtures;
