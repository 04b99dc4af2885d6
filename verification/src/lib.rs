//! A tabletop dice-rolling chat bot: dice rolls, game-specific reports and
//! the decisions that turn a chat message into a reply.

pub mod dice;
pub mod text;
pub mod commands;
pub mod bot;
