//! Verified core of the tavern moderation bot: mention parsing, guild
//! settings, banned-word detection, quotes, command descriptions and the
//! text of every reply.

pub mod text;
pub mod message;
pub mod guild;
pub mod commands;
pub mod moderation;
pub mod quotes;
pub mod database;
