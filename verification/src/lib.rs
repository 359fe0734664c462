//! Decoder for a fixed binary replay format of a multiplayer match, with
//! per-player match statistics derived from the decoded event stream.

pub mod assoc;
pub mod bitreader;
pub mod cmd;
pub mod error;
pub mod game_event;
pub mod header;
pub mod messages;
pub mod packet;
pub mod parse_game;
pub mod player;
pub mod playerinfo;
pub mod stable_hasher;
pub mod stringtables;
pub mod textfmt;

pub use error::DemoError;
