//! Client-side codecs for the three wire protocols a Minecraft-style game
//! server may speak (a modern length-framed protocol, two legacy UTF-16
//! plaintext variants, and a UDP challenge/response query protocol), plus the
//! ordered fallback negotiation between them. Everything here is pure: packet
//! bytes go in and out as plain buffers, and the surrounding application owns
//! all sockets, timing and I/O.

pub mod codec;
pub mod legacy;
pub mod modern;
pub mod negotiator;
pub mod netutil;
pub mod ping_json;
pub mod query;
pub mod strutil;

use vstd::prelude::*;

verus! {

/// The outcome of asking an external chooser to pick one value out of many:
/// either one of the offered values, or a negative sentinel with a meaning of
/// the caller's choosing (such as "use all of them").
pub enum Selected<T> {
    Value(T),
    Special(isize),
}

/// Returns the contained string, or `val` as an owned string when absent.
pub fn get_or(v: Option<String>, val: &str) -> (r: String)
    ensures
        match v {
            Some(s) => r@ == s@,
            None => r@ == val@,
        },
{
    if let Some(s) = v {
        s
    } else {
        val.to_owned()
    }
}

} // verus!
