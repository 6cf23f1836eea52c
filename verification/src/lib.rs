//! Launcher logic for RPG Maker fangames played over an EasyTier network:
//! recognising a game folder and its registry entry, RGSSAD archives, the
//! chat and FGL_Link relays between launchers, and the local exchange with the
//! game.
pub mod text;
pub mod net;
pub mod link;
pub mod chat;
pub mod ipc;
pub mod rgssad;
pub mod fangame;
pub mod peer_files;
pub mod registry;
