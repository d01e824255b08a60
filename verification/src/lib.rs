//! Voice-cluster logic of the community bot: lane planning, rank anchors,
//! looking-for-group posts, pairing and survey decisions.

pub mod text;
pub mod interactions;
pub mod sorting;
pub mod rank_catalog;
pub mod adaptive;
pub mod lane_sync;
pub mod lane_settle;
pub mod rank;
pub mod rank_commands;
pub mod glue;
pub mod json;
pub mod components;
pub mod bot_messages;
pub mod overwrites;
pub mod id_sets;
pub mod lfg;
pub mod lfg_watch;
pub mod mate_survey;
pub mod pairing;
pub mod feedback;
pub mod nudge;
pub mod lfg_flow;
pub mod lfg_components;
