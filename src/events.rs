use vstd::prelude::*;
use crate::quota::QuotaParams;
use crate::types::{ChannelSettings, ChatMessage, Crown, Participant};

verus! {

/// A channel as shown to its members.
#[derive(Clone, Debug)]
pub struct ChannelInfo {
    pub _id: String,
    pub settings: ChannelSettings,
    pub crown: Option<Crown>,
}

/// A channel as listed in the directory.
#[derive(Clone, Debug)]
pub struct ChannelSummary {
    pub _id: String,
    pub count: usize,
    pub crown: Option<Crown>,
    pub settings: ChannelSettings,
}

/// One event of an outbound frame. Fields that hold client-supplied JSON
/// (`e`, the notes and their time, a device list) carry its text unchanged.
#[derive(Clone, Debug)]
pub enum OutEvent {
    Hi { u: Participant, t: u64, v: String, motd: String },
    Nq { params: QuotaParams },
    Ls { c: bool, u: Vec<ChannelSummary> },
    T { t: u64, e: String },
    A { a: String, p: Participant, t: u64 },
    N { t: Option<String>, n: String, p: String },
    M { id: String, x: u64, y: u64 },
    P { id: String, _id: String, name: String, color: String, x: u64, y: u64 },
    Ch { ch: ChannelInfo, ppl: Vec<Participant>, p: Option<String> },
    C { c: Vec<ChatMessage> },
    Bye { p: String },
    Notification { id: Option<String>, title: Option<String>, text: String, class: String, duration: u64 },
    Devices { list: String },
}

/// One frame, serialized once and handed to every recipient in order.
#[derive(Clone, Debug)]
pub struct Outbound {
    pub recipients: Vec<String>,
    pub frame: Vec<OutEvent>,
}

/// The views of a list of ids.
pub open spec fn ids_view(v: Seq<String>) -> Seq<Seq<char>> {
    v.map_values(|s: String| s@)
}

} // verus!
