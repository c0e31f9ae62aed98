use vstd::prelude::*;
use crate::quota::NoteQuota;

verus! {

pub fn copy_opt_string(o: &Option<String>) -> (r: Option<String>)
    ensures
        r == *o,
{
    match o {
        Some(s) => Some(s.clone()),
        None => None,
    }
}

/// The view of an optional string.
pub open spec fn opt_view(o: Option<String>) -> Option<Seq<char>> {
    match o {
        Some(s) => Some(s@),
        None => None,
    }
}

/// A point on the shared keyboard. Each coordinate is the bit pattern of the
/// IEEE-754 double that the client sent; the server stores and relays it only.
#[derive(Clone, Copy, Debug, PartialEq, Eq)]
pub struct Position {
    pub x: u64,
    pub y: u64,
}

/// The projection of a client into the channel it has joined.
#[derive(Clone, Debug)]
pub struct Participant {
    pub id: String,
    pub _id: String,
    pub name: String,
    pub color: String,
    pub x: u64,
    pub y: u64,
}

impl Participant {
    pub fn duplicate(&self) -> (r: Participant)
        ensures
            r == *self,
    {
        Participant {
            id: self.id.clone(),
            _id: self._id.clone(),
            name: self.name.clone(),
            color: self.color.clone(),
            x: self.x,
            y: self.y,
        }
    }
}

/// Ownership of a non-special channel.
#[derive(Clone, Debug)]
pub struct Crown {
    pub participant_id: Option<String>,
    pub user_id: Option<String>,
    pub time: u64,
    pub start_pos: Position,
    pub end_pos: Position,
}

impl Crown {
    pub fn duplicate(&self) -> (r: Crown)
        ensures
            r == *self,
    {
        Crown {
            participant_id: copy_opt_string(&self.participant_id),
            user_id: copy_opt_string(&self.user_id),
            time: self.time,
            start_pos: self.start_pos,
            end_pos: self.end_pos,
        }
    }
}

pub fn copy_opt_crown(o: &Option<Crown>) -> (r: Option<Crown>)
    ensures
        r == *o,
{
    match o {
        Some(c) => Some(c.duplicate()),
        None => None,
    }
}

#[derive(Clone, Debug)]
pub struct ChannelSettings {
    pub color: String,
    pub color2: Option<String>,
    pub lobby: bool,
    pub visible: bool,
    pub chat: Option<bool>,
    pub crownsolo: Option<bool>,
}

impl ChannelSettings {
    pub fn duplicate(&self) -> (r: ChannelSettings)
        ensures
            r == *self,
    {
        ChannelSettings {
            color: self.color.clone(),
            color2: copy_opt_string(&self.color2),
            lobby: self.lobby,
            visible: self.visible,
            chat: self.chat,
            crownsolo: self.crownsolo,
        }
    }
}

#[derive(Clone, Debug)]
pub struct ChatMessage {
    pub m: String,
    pub a: String,
    pub p: Participant,
    pub t: u64,
}

impl ChatMessage {
    pub fn duplicate(&self) -> (r: ChatMessage)
        ensures
            r == *self,
    {
        ChatMessage { m: self.m.clone(), a: self.a.clone(), p: self.p.duplicate(), t: self.t }
    }
}

#[derive(Clone, Debug)]
pub struct Channel {
    pub _id: String,
    pub settings: ChannelSettings,
    pub crown: Option<Crown>,
    pub participants: Vec<Participant>,
    pub chat_history: Vec<ChatMessage>,
}

/// The session state of one connected client.
#[derive(Clone, Debug)]
pub struct ClientData {
    pub user_id: String,
    pub participant: Option<Participant>,
    pub channel_id: Option<String>,
    pub last_move_time: Option<u64>,
    pub note_quota: NoteQuota,
}

impl ClientData {
    pub fn duplicate(&self) -> (r: ClientData)
        ensures
            r.user_id == self.user_id,
            r.participant == self.participant,
            r.channel_id == self.channel_id,
            r.last_move_time == self.last_move_time,
            r.note_quota.same_as(self.note_quota),
    {
        ClientData {
            user_id: self.user_id.clone(),
            participant: match &self.participant {
                Some(p) => Some(p.duplicate()),
                None => None,
            },
            channel_id: copy_opt_string(&self.channel_id),
            last_move_time: self.last_move_time,
            note_quota: self.note_quota.duplicate(),
        }
    }
}

#[derive(Clone, Debug)]
pub struct BanInfo {
    pub channel_id: String,
    pub expiry: u64,
}

pub fn copy_participants(v: &Vec<Participant>) -> (r: Vec<Participant>)
    ensures
        r@ == v@,
{
    let mut r: Vec<Participant> = Vec::new();
    let mut i: usize = 0;
    while i < v.len()
        invariant
            i <= v@.len(),
            r@ == v@.take(i as int),
        decreases v@.len() - i,
    {
        r.push(v[i].duplicate());
        i = i + 1;
        assert(r@ =~= v@.take(i as int));
    }
    assert(v@.take(v@.len() as int) =~= v@);
    r
}

pub fn copy_history(v: &Vec<ChatMessage>) -> (r: Vec<ChatMessage>)
    ensures
        r@ == v@,
{
    let mut r: Vec<ChatMessage> = Vec::new();
    let mut i: usize = 0;
    while i < v.len()
        invariant
            i <= v@.len(),
            r@ == v@.take(i as int),
        decreases v@.len() - i,
    {
        r.push(v[i].duplicate());
        i = i + 1;
        assert(r@ =~= v@.take(i as int));
    }
    assert(v@.take(v@.len() as int) =~= v@);
    r
}

} // verus!
