//! The data carried by a modern status reply. The reply arrives on the wire
//! as one JSON document; this module holds the plain shape of that document.
//! Turning the document's text into these values is the surrounding
//! application's job, since it owes nothing to the wire protocol itself.

use vstd::prelude::*;

verus! {

/// The server software's version block.
#[derive(Debug, Clone)]
pub struct PingVersion {
    pub name: String,
    pub protocol: u32,
}

/// One sampled online player.
#[derive(Debug, Clone)]
pub struct PingPlayer {
    pub name: String,
    pub id: String,
}

/// The player-count block, with an optional sample of who is online.
#[derive(Debug, Clone)]
pub struct PingPlayerInfo {
    pub max: u32,
    pub online: u32,
    pub sample: Vec<PingPlayer>,
}

/// One installed server mod.
#[derive(Debug, Clone)]
pub struct PingMod {
    pub modid: String,
    pub version: String,
}

/// The mod-loader block some servers announce.
#[derive(Debug, Clone)]
pub struct PingModInfo {
    pub ty: String,
    pub mod_list: Vec<PingMod>,
}

/// A decoded modern status reply. The description is free-form structured
/// text; it is kept as its raw JSON text rather than interpreted.
#[derive(Debug, Clone)]
pub struct PingResponse {
    pub version: PingVersion,
    pub players: Option<PingPlayerInfo>,
    pub description: String,
    pub favicon: String,
    pub enforces_secure_chat: Option<bool>,
    pub previews_chat: Option<bool>,
    pub mods: Option<PingModInfo>,
}

} // verus!
