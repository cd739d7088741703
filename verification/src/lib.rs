//! BattleTris rules engine: the board, falling pieces, weapons, arsenal and the
//! deterministic random stream, plus the computer's weapon policy and the
//! networked bot's synchronization decision.

pub mod constants;
pub mod cell;
pub mod weapons;
pub mod arsenal;
pub mod rng;
pub mod spy;
pub mod board;
pub mod piece;
pub mod keyframe;
pub mod wire;
pub mod policy;
pub mod bazaar;
pub mod strategy;
pub mod exchange;
pub mod game;
pub mod roam;
pub mod sync;
pub mod pacing;
pub mod frame;
pub mod versus;
pub mod ai;
pub mod landing;
pub mod engine;
