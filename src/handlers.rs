use vstd::prelude::*;
use crate::quota::QuotaParams;
use crate::events::{ChannelInfo, ChannelSummary, OutEvent, Outbound, ids_view};
use crate::server::{
    summary,
    without,
    is_ls_of,
    BanEntry, Server, crown_holder, has_channel, has_client, has_id, has_participant,
    is_default_participant, default_participant, contains_id, remove_id, deliverable,
    participant_ids,
};
use crate::text::{decimal_of, byte_len, byte_length, decimal, is_special, is_special_id, str_equal, trim_of, trimmed};
use crate::types::{
    BanInfo, Channel, ChannelSettings, Crown, Participant, Position, copy_history, copy_opt_crown,
    copy_opt_string, copy_participants, opt_view,
};
use crate::utils::{rfc3339_of, rfc3339_of_millis};

verus! {

/// Longest chat message, in bytes.
pub const MAX_CHAT_BYTES: usize = 256;

/// Longest display name, in bytes after trimming.
pub const MAX_NAME_BYTES: usize = 40;

/// Longest channel id, in bytes; a longer one stands for the lobby.
pub const MAX_CHANNEL_ID_BYTES: usize = 512;

/// Shortest interval between two accepted cursor moves, in milliseconds.
pub const MOVE_INTERVAL_MS: u64 = 50;

/// Longest kickban, in milliseconds.
pub const MAX_BAN_MS: u64 = 86_400_000;

/// The fields of `set` in `userset` and `chset`.
#[derive(Clone, Debug)]
pub struct SetFields {
    pub name: Option<String>,
    pub color: Option<String>,
    pub visible: Option<bool>,
    pub chat: Option<bool>,
    pub crownsolo: Option<bool>,
}

/// The fields that the events read, each present only where the client sent it
/// with the expected type. Values that are relayed unchanged (`e`, the notes and
/// their time, a device list) are kept as JSON text; `x` and `y` hold the bit
/// patterns of the coordinates after coercion to doubles.
#[derive(Clone, Debug)]
pub struct MessageData {
    pub e: Option<String>,
    pub message: Option<String>,
    pub n: Option<String>,
    pub n_count: Option<u64>,
    pub t: Option<String>,
    pub x: Option<u64>,
    pub y: Option<u64>,
    pub set: Option<SetFields>,
    pub _id: Option<String>,
    pub id: Option<String>,
    pub ms: Option<u64>,
    pub list: Option<String>,
}

/// One inbound event: its tag `m` and its fields.
#[derive(Clone, Debug)]
pub struct IncomingMessage {
    pub m: String,
    pub data: MessageData,
}

/// Applies inbound events to a registry.
pub struct MessageHandler {
    pub server: Server,
}

/// The channel that a `ch` request for `t` names.
pub open spec fn coerced_channel(t: Seq<char>) -> Seq<char> {
    if byte_len(t) > MAX_CHANNEL_ID_BYTES {
        "lobby"@
    } else {
        t
    }
}

/// An active ban of `user` from `ch` at time `now`.
pub open spec fn is_banned(bans: Seq<BanEntry>, user: Seq<char>, ch: Seq<char>, now: u64) -> bool {
    exists|b: int|
        0 <= b < bans.len() && #[trigger] bans[b].user_id@ == user && bans[b].info.channel_id@ == ch
            && bans[b].info.expiry > now
}

/// Client `cid` sits in channel `ch`, its record names `ch`, and the crown of
/// an ordinary `ch` is held.
pub open spec fn seated(s: Server, cid: Seq<char>, ch: Seq<char>) -> bool {
    &&& exists|i: int|
        0 <= i < s.channels@.len() && #[trigger] s.channels@[i]._id@ == ch && has_participant(
            s.channels@[i].participants@,
            cid,
        ) && (!is_special_id(ch) ==> crown_holder(s.channels@[i].crown).is_some())
    &&& exists|m: int|
        0 <= m < s.clients@.len() && #[trigger] s.clients@[m].id@ == cid && opt_view(
            s.clients@[m].data.channel_id,
        ) == Some(ch)
}

/// The ban expiry after `now` for a kickban of `ms` milliseconds.
pub open spec fn ban_expiry(now: u64, ms: u64) -> u64 {
    let d = if ms > MAX_BAN_MS {
        MAX_BAN_MS
    } else {
        ms
    };
    if now as int + d as int > u64::MAX as int {
        u64::MAX
    } else {
        (now + d) as u64
    }
}

/// A cursor move at `now` after one at `last` comes too soon.
pub open spec fn too_soon(last: Option<u64>, now: u64) -> bool {
    match last {
        Some(l) => (now as int) - (l as int) < MOVE_INTERVAL_MS as int,
        None => false,
    }
}

/// A name that `userset` accepts: between one and forty bytes once trimmed.
pub open spec fn name_ok(name: Seq<char>) -> bool {
    1 <= byte_len(trim_of(name)) <= MAX_NAME_BYTES
}

/// A chat message that is relayed: non-empty and at most 256 bytes.
pub open spec fn chat_ok(message: Seq<char>) -> bool {
    message.len() > 0 && byte_len(message) <= MAX_CHAT_BYTES
}

/// The crown of channel `c` is held by `cid`.
pub open spec fn holds_crown(c: Channel, cid: Seq<char>) -> bool {
    crown_holder(c.crown) == Some(cid)
}

pub open spec fn the_client(s: Server, cid: Seq<char>, m: int) -> bool {
    0 <= m < s.clients@.len() && s.clients@[m].id@ == cid
}

fn push_opt(out: &mut Vec<Outbound>, o: Option<Outbound>)
    ensures
        final(out)@.len() == old(out)@.len() + (if o.is_some() {
            1int
        } else {
            0
        }),
        forall|k: int| 0 <= k < old(out)@.len() ==> final(out)@[k] == old(out)@[k],
        o matches Some(v) ==> final(out)@[old(out)@.len() as int] == v,
{
    match o {
        Some(v) => out.push(v),
        None => {},
    }
}

pub open spec fn is_notification_of(e: OutEvent, text: Seq<char>) -> bool {
    match e {
        OutEvent::Notification { text: t, .. } => t@ == text,
        _ => false,
    }
}

pub open spec fn is_chat_of(e: OutEvent, msg: Seq<char>, now: u64) -> bool {
    match e {
        OutEvent::A { a, t, .. } => a@ == msg && t == now,
        _ => false,
    }
}

pub open spec fn has_default_participant(p: Option<Participant>, cid: Seq<char>, user: Seq<char>) -> bool {
    match p {
        Some(q) => is_default_participant(q, cid, user),
        None => false,
    }
}

/// A short notification with id `id` (and then an empty title), text `text`,
/// shown for `duration` milliseconds.
pub open spec fn is_notice(e: OutEvent, id: Option<Seq<char>>, text: Seq<char>, duration: u64) -> bool {
    match e {
        OutEvent::Notification { id: i, title, text: t, class, duration: d } => {
            &&& opt_view(i) == id
            &&& opt_view(title) == (if id.is_some() {
                Some(Seq::<char>::empty())
            } else {
                None
            })
            &&& t@ == text
            &&& class@ == "short"@
            &&& d == duration
        },
        _ => false,
    }
}

fn notification(id: Option<String>, text: String, duration: u64) -> (r: OutEvent)
    ensures
        is_notification_of(r, text@),
        is_notice(r, opt_view(id), text@, duration),
{
    let title = match id {
        Some(_) => Some(String::new()),
        None => None,
    };
    let class = String::from_str("short");
    proof {
        reveal_strlit("short");
    }
    OutEvent::Notification { id, title, text, class, duration }
}

fn prefixed_time(prefix: &str, now: u64) -> (r: String)
    ensures
        r@ == prefix@ + decimal_of(now as nat),
{
    String::from_str(prefix).concat(decimal(now).as_str())
}

fn channel_info(ch: &Channel) -> (r: ChannelInfo)
    ensures
        r._id == ch._id,
        r.settings == ch.settings,
        r.crown == ch.crown,
{
    ChannelInfo { _id: ch._id.clone(), settings: ch.settings.duplicate(), crown: copy_opt_crown(&ch.crown) }
}

fn presence(p: &Participant) -> (r: OutEvent)
    ensures
        is_presence_of(r, *p),
{
    OutEvent::P {
        id: p.id.clone(),
        _id: p._id.clone(),
        name: p.name.clone(),
        color: p.color.clone(),
        x: p.x,
        y: p.y,
    }
}

impl MessageHandler {
    pub fn new(server: Server) -> (r: MessageHandler)
        ensures
            r.server == server,
    {
        MessageHandler { server }
    }

    pub open spec fn wf(&self) -> bool {
        self.server.wf()
    }

    /// An active ban of `user` from `ch`, if any.
    fn active_ban(&self, user: &str, ch: &str, now: u64) -> (r: Option<u64>)
        ensures
            r.is_some() == is_banned(self.server.banned_users@, user@, ch@, now),
            r matches Some(e) ==> exists|b: int|
                0 <= b < self.server.banned_users@.len() && #[trigger] self.server.banned_users@[b].user_id@
                    == user@ && self.server.banned_users@[b].info.channel_id@ == ch@
                    && self.server.banned_users@[b].info.expiry == e && e > now,
    {
        let bans = &self.server.banned_users;
        let mut b: usize = 0;
        while b < bans.len()
            invariant
                bans == &self.server.banned_users,
                b <= bans@.len(),
                forall|j: int|
                    0 <= j < b ==> !(bans@[j].user_id@ == user@ && bans@[j].info.channel_id@ == ch@
                        && bans@[j].info.expiry > now),
            decreases bans@.len() - b,
        {
            if str_equal(bans[b].user_id.as_str(), user) && str_equal(
                bans[b].info.channel_id.as_str(),
                ch,
            ) && bans[b].info.expiry > now {
                return Some(bans[b].info.expiry);
            }
            b = b + 1;
        }
        None
    }

    /// `hi`: gives the client its default participant and greets it.
    pub fn handle_hi(&mut self, client_id: &str, now: u64) -> (r: Vec<Outbound>)
        requires
            old(self).wf(),
        ensures
            final(self).wf(),
            final(self).server.channels == old(self).server.channels,
            forall|m: int|
                #[trigger] the_client(old(self).server, client_id@, m) ==> the_client(
                    final(self).server,
                    client_id@,
                    m,
                ) && has_default_participant(
                    final(self).server.clients@[m].data.participant,
                    client_id@,
                    old(self).server.clients@[m].data.user_id@,
                ),
            r@.len() == (if has_client(old(self).server.clients@, client_id@) && has_id(
                old(self).server.ws_senders@,
                client_id@,
            ) {
                1int
            } else {
                0
            }),
            r@.len() == 1 ==> ids_view(r@[0].recipients@) == seq![client_id@] && r@[0].frame@.len() == 2
                && is_greeting_at(r@[0].frame@[0], now),
            forall|m: int|
                #[trigger] the_client(old(self).server, client_id@, m) && r@.len() == 1 ==> {
                    let q = old(self).server.clients@[m].data.note_quota;
                    &&& is_greeting(
                        r@[0].frame@[0],
                        client_id@,
                        old(self).server.clients@[m].data.user_id@,
                        now,
                    )
                    &&& r@[0].frame@[1] == (OutEvent::Nq {
                        params: QuotaParams {
                            allowance: q.allowance,
                            max: q.max,
                            max_hist_len: q.max_hist_len,
                        },
                    })
                },
    {
        let mut out: Vec<Outbound> = Vec::new();
        match self.server.find_client(client_id) {
            Some(m) => {
                let mut entry = self.server.clients[m].clone_entry();
                let p = default_participant(client_id, entry.data.user_id.as_str());
                let u = p.duplicate();
                let params = entry.data.note_quota.get_params();
                entry.data.participant = Some(p);
                self.server.put_client(m, entry);
                let mut frame: Vec<OutEvent> = Vec::new();
                let v = String::from_str("1.0.0");
                let motd = String::from_str("Welcome to Multiplayer Piano!");
                proof {
                    reveal_strlit("1.0.0");
                    reveal_strlit("Welcome to Multiplayer Piano!");
                }
                frame.push(OutEvent::Hi { u, t: now, v, motd });
                frame.push(OutEvent::Nq { params });
                push_opt(&mut out, self.server.send_to_client(client_id, frame));
                proof {
                    assert forall|w: int| #[trigger]
                        the_client(old(self).server, client_id@, w) implies w == m by {
                        if w != m {
                            if w < m {
                                assert(old(self).server.clients@[w].id@ != old(self).server.clients@[m as int].id@);
                            } else {
                                assert(old(self).server.clients@[m as int].id@ != old(self).server.clients@[w].id@);
                            }
                        }
                    }
                }
            },
            None => {},
        }
        out
    }

    /// `+ls`: subscribes the client to the directory and lists the visible channels.
    pub fn handle_plus_ls(&mut self, client_id: &str) -> (r: Vec<Outbound>)
        requires
            old(self).wf(),
        ensures
            final(self).wf(),
            has_id(final(self).server.subscribed_to_ls@, client_id@),
            forall|s: Seq<char>| s != client_id@ ==> has_id(final(self).server.subscribed_to_ls@, s) == has_id(old(self).server.subscribed_to_ls@, s),
            final(self).server.channels == old(self).server.channels,
            final(self).server.clients == old(self).server.clients,
            r@.len() == (if has_id(old(self).server.ws_senders@, client_id@) {
                1int
            } else {
                0
            }),
            r@.len() == 1 ==> ids_view(r@[0].recipients@) == seq![client_id@] && r@[0].frame@.len() == 1
                && is_listing(r@[0].frame@[0], visible_ids(old(self).server.channels@))
                && r@[0].frame@[0] == (OutEvent::Ls { c: true, u: r@[0].frame@[0]->Ls_u })
                && (r@[0].frame@[0]->Ls_u)@ == visible_summaries(old(self).server.channels@),
    {
        if !contains_id(&self.server.subscribed_to_ls, client_id) {
            self.server.subscribed_to_ls.push(String::from_str(client_id));
            proof {
                let v = self.server.subscribed_to_ls@;
                assert(v[v.len() - 1]@ == client_id@);
                assert forall|s: Seq<char>| s != client_id@ implies has_id(v, s) == has_id(old(self).server.subscribed_to_ls@, s) by {
                    if has_id(v, s) {
                        let k = choose|k: int| 0 <= k < v.len() && #[trigger] v[k]@ == s;
                        assert(old(self).server.subscribed_to_ls@[k] == v[k]);
                    }
                    if has_id(old(self).server.subscribed_to_ls@, s) {
                        let k = choose|k: int| 0 <= k < old(self).server.subscribed_to_ls@.len() && #[trigger] old(self).server.subscribed_to_ls@[k]@ == s;
                        assert(old(self).server.subscribed_to_ls@[k] == v[k]);
                    }
                }
            }
        }
        let mut u: Vec<ChannelSummary> = Vec::new();
        let mut i: usize = 0;
        while i < self.server.channels.len()
            invariant
                i <= self.server.channels@.len(),
                summary_ids(u@) == visible_ids(self.server.channels@.take(i as int)),
                u@ == visible_summaries(self.server.channels@.take(i as int)),
            decreases self.server.channels@.len() - i,
        {
            let ghost before = u@;
            let ghost chs = self.server.channels@;
            assert(chs.take(i as int + 1).drop_last() =~= chs.take(i as int));
            assert(chs.take(i as int + 1).last() == chs[i as int]);
            if self.server.channels[i].settings.visible {
                u.push(Server::summary_of(&self.server.channels[i]));
                assert(summary_ids(u@) =~= summary_ids(before).push(chs[i as int]._id@));
                assert(u@ =~= before.push(summary(chs[i as int])));
            }
            i = i + 1;
        }
        assert(self.server.channels@.take(self.server.channels@.len() as int) =~= self.server.channels@);
        let mut frame: Vec<OutEvent> = Vec::new();
        frame.push(OutEvent::Ls { c: true, u });
        let mut out: Vec<Outbound> = Vec::new();
        push_opt(&mut out, self.server.send_to_client(client_id, frame));
        out
    }

    /// `-ls`: ends the client's directory subscription.
    pub fn handle_minus_ls(&mut self, client_id: &str)
        requires
            old(self).wf(),
        ensures
            final(self).wf(),
            minus_ls_result(old(self).server, final(self).server, client_id@),
    {
        remove_id(&mut self.server.subscribed_to_ls, client_id);
    }

    /// `t`: echoes `e` with the server time.
    pub fn handle_time(&self, client_id: &str, data: &MessageData, now: u64) -> (r: Vec<Outbound>)
        ensures
            time_reply(self.server, client_id@, *data, now, r@),
    {
        let mut out: Vec<Outbound> = Vec::new();
        match &data.e {
            Some(e) => {
                let mut frame: Vec<OutEvent> = Vec::new();
                frame.push(OutEvent::T { t: now, e: e.clone() });
                push_opt(&mut out, self.server.send_to_client(client_id, frame));
            },
            None => {},
        }
        out
    }

    /// `a`: relays a chat message to the whole channel of the sender.
    pub fn handle_chat(&self, client_id: &str, data: &MessageData, now: u64) -> (r: Vec<Outbound>)
        requires
            self.wf(),
        ensures
            r@.len() <= 1,
            r@.len() == 1 <==> (data.message matches Some(msg) && chat_ok(msg@) && exists|m: int,
                i: int|
                #[trigger] the_client(self.server, client_id@, m) && 0 <= i
                    < self.server.channels@.len() && self.server.clients@[m].data.participant.is_some()
                    && opt_view(self.server.clients@[m].data.channel_id) == Some(
                    #[trigger] self.server.channels@[i]._id@,
                ) && self.server.channels@[i].settings.chat == Some(true)),
            r@.len() == 1 ==> r@[0].frame@.len() == 1 && is_chat_of(
                r@[0].frame@[0],
                data.message.unwrap()@,
                now,
            ),
            forall|m: int, i: int|
                #[trigger] the_client(self.server, client_id@, m) && 0 <= i < self.server.channels@.len()
                    && opt_view(self.server.clients@[m].data.channel_id) == Some(
                    #[trigger] self.server.channels@[i]._id@,
                ) && r@.len() == 1 ==> r@[0].frame@[0] == (OutEvent::A {
                    a: data.message.unwrap(),
                    p: self.server.clients@[m].data.participant.unwrap(),
                    t: now,
                }) && ids_view(r@[0].recipients@) == deliverable(
                    participant_ids(self.server.channels@[i].participants@),
                    None,
                    self.server.ws_senders@,
                ),
    {
        let mut out: Vec<Outbound> = Vec::new();
        let message = match &data.message {
            Some(msg) => msg,
            None => return out,
        };
        if message.unicode_len() == 0 || byte_length(message.as_str()) > MAX_CHAT_BYTES {
            return out;
        }
        let m = match self.server.find_client(client_id) {
            Some(m) => m,
            None => {
                return out;
            },
        };
        let chid = match &self.server.clients[m].data.channel_id {
            Some(c) => c,
            None => return out,
        };
        let participant = match &self.server.clients[m].data.participant {
            Some(p) => p.duplicate(),
            None => return out,
        };
        let i = match self.server.find_channel(chid.as_str()) {
            Some(i) => i,
            None => {
                return out;
            },
        };
        proof {
            assert forall|w: int, j: int|
                #[trigger] the_client(self.server, client_id@, w) && 0 <= j < self.server.channels@.len()
                    && opt_view(self.server.clients@[w].data.channel_id) == Some(
                    #[trigger] self.server.channels@[j]._id@,
                ) implies w == m && j == i by {
                self.server.lemma_unique_client(w, m as int);
                self.server.lemma_unique_channel(j, i as int);
            }
        }
        if self.server.channels[i].settings.chat != Some(true) {
            return out;
        }
        let mut frame: Vec<OutEvent> = Vec::new();
        frame.push(OutEvent::A { a: message.clone(), p: participant, t: now });
        push_opt(&mut out, self.server.broadcast_to_channel(chid.as_str(), frame, None));
        assert(the_client(self.server, client_id@, m as int));
        assert(opt_view(self.server.clients@[m as int].data.channel_id) == Some(
            self.server.channels@[i as int]._id@,
        ));
        out
    }
}

/// The ids of the visible channels, in order.
pub open spec fn visible_ids(chs: Seq<Channel>) -> Seq<Seq<char>>
    decreases chs.len(),
{
    if chs.len() == 0 {
        Seq::empty()
    } else if chs.last().settings.visible {
        visible_ids(chs.drop_last()).push(chs.last()._id@)
    } else {
        visible_ids(chs.drop_last())
    }
}

/// The directory entries of the visible channels, in order.
pub open spec fn visible_summaries(chs: Seq<Channel>) -> Seq<ChannelSummary>
    decreases chs.len(),
{
    if chs.len() == 0 {
        Seq::empty()
    } else if chs.last().settings.visible {
        visible_summaries(chs.drop_last()).push(summary(chs.last()))
    } else {
        visible_summaries(chs.drop_last())
    }
}

pub open spec fn summary_ids(u: Seq<ChannelSummary>) -> Seq<Seq<char>> {
    u.map_values(|c: ChannelSummary| c._id@)
}

/// A full directory listing of the channels `ids`.
pub open spec fn is_listing(e: OutEvent, ids: Seq<Seq<char>>) -> bool {
    match e {
        OutEvent::Ls { c, u } => c && summary_ids(u@) == ids,
        _ => false,
    }
}

/// The registry after `-ls` from `cid`: the same but for `cid`'s subscription.
pub open spec fn minus_ls_result(before: Server, after: Server, cid: Seq<char>) -> bool {
    &&& !has_id(after.subscribed_to_ls@, cid)
    &&& forall|s: Seq<char>| s != cid ==> has_id(after.subscribed_to_ls@, s) == has_id(before.subscribed_to_ls@, s)
    &&& after.channels == before.channels
    &&& after.clients == before.clients
    &&& after.banned_users == before.banned_users
    &&& after.ws_senders == before.ws_senders
}


/// Whether notes from `cid` are held back in channel `c`: crown-solo is on and
/// the crown is held by someone else.
pub open spec fn solo_blocked(c: Channel, cid: Seq<char>) -> bool {
    c.settings.crownsolo == Some(true) && c.crown.is_some() && crown_holder(c.crown) != Some(cid)
}

/// The number of notes as the quota counts them.
pub open spec fn note_count(n: u64) -> i32 {
    if n > i32::MAX as u64 {
        i32::MAX
    } else {
        n as i32
    }
}

/// A relay of notes played by `cid`.
pub open spec fn is_notes_from(e: OutEvent, cid: Seq<char>) -> bool {
    match e {
        OutEvent::N { p, .. } => p@ == cid,
        _ => false,
    }
}

/// The greeting of `hi`: the default participant of `cid`, the time, the
/// version and the message of the day.
pub open spec fn is_greeting(e: OutEvent, cid: Seq<char>, user: Seq<char>, now: u64) -> bool {
    match e {
        OutEvent::Hi { u, t, v, motd } => {
            &&& is_default_participant(u, cid, user)
            &&& t == now
            &&& v@ == "1.0.0"@
            &&& motd@ == "Welcome to Multiplayer Piano!"@
        },
        _ => false,
    }
}

/// The `ch` event that shows channel `c` to its members.
pub open spec fn is_channel_update(e: OutEvent, c: Channel) -> bool {
    match e {
        OutEvent::Ch { ch, ppl, p } => ch._id == c._id && ch.settings == c.settings && ch.crown
            == c.crown && ppl@ == c.participants@ && p.is_none(),
        _ => false,
    }
}

/// A greeting stamped `now`.
pub open spec fn is_greeting_at(e: OutEvent, now: u64) -> bool {
    match e {
        OutEvent::Hi { t, .. } => t == now,
        _ => false,
    }
}

pub open spec fn too_fast_text() -> Seq<char> {
    "You're playing too fast! Slow down."@
}

impl MessageHandler {
    /// `n`: spends quota for the notes and relays them to the rest of the channel.
    pub fn handle_note(&mut self, client_id: &str, data: &MessageData) -> (r: Vec<Outbound>)
        requires
            old(self).wf(),
        ensures
            final(self).wf(),
            final(self).server.channels == old(self).server.channels,
            final(self).server.clients@.len() == old(self).server.clients@.len(),
            r@.len() <= 1,
            data.n.is_none() || data.n_count.is_none() ==> final(self).server == old(self).server
                && r@.len() == 0,
            forall|m: int|
                #[trigger] the_client(old(self).server, client_id@, m) && data.n.is_some()
                    && data.n_count.is_some() ==> {
                    let q = old(self).server.clients@[m].data.note_quota;
                    let cost = q.cost(note_count(data.n_count.unwrap()) as int);
                    &&& the_client(final(self).server, client_id@, m)
                    &&& final(self).server.clients@ == old(self).server.clients@.update(m, final(self).server.clients@[m])
                    &&& final(self).server.clients@[m].data.note_quota.history@ == q.history@
                    &&& final(self).server.clients@[m].data.channel_id == old(self).server.clients@[m].data.channel_id
                    &&& final(self).server.clients@[m].data.participant == old(self).server.clients@[m].data.participant
                    &&& final(self).server.clients@[m].data.note_quota.points == if q.points >= cost {
                        q.points - cost
                    } else {
                        q.points as int
                    }
                    &&& q.points < cost ==> r@.len() == (if has_id(old(self).server.ws_senders@, client_id@) {
                        1int
                    } else {
                        0
                    })
                    &&& q.points < cost && r@.len() == 1 ==> ids_view(r@[0].recipients@) == seq![client_id@]
                        && r@[0].frame@.len() == 1 && is_notice(r@[0].frame@[0], None, too_fast_text(), 2000)
                    &&& q.points >= cost ==> forall|i: int|
                        0 <= i < old(self).server.channels@.len() && opt_view(
                            old(self).server.clients@[m].data.channel_id,
                        ) == Some(#[trigger] old(self).server.channels@[i]._id@) && solo_blocked(
                            old(self).server.channels@[i],
                            client_id@,
                        ) ==> r@.len() == 0
                    &&& q.points >= cost ==> forall|i: int|
                        0 <= i < old(self).server.channels@.len() && opt_view(
                            old(self).server.clients@[m].data.channel_id,
                        ) == Some(#[trigger] old(self).server.channels@[i]._id@) && !solo_blocked(
                            old(self).server.channels@[i],
                            client_id@,
                        ) ==> r@.len() == 1 && r@[0].frame@.len() == 1 && is_notes_from(
                            r@[0].frame@[0],
                            client_id@,
                        ) && r@[0].frame@[0] == (OutEvent::N {
                            t: data.t,
                            n: data.n.unwrap(),
                            p: r@[0].frame@[0]->N_p,
                        }) && ids_view(r@[0].recipients@) == deliverable(
                            participant_ids(old(self).server.channels@[i].participants@),
                            Some(client_id@),
                            old(self).server.ws_senders@,
                        )
                },
    {
        let mut out: Vec<Outbound> = Vec::new();
        let notes = match &data.n {
            Some(n) => n,
            None => return out,
        };
        let count = match data.n_count {
            Some(c) => c,
            None => return out,
        };
        let needed: i32 = if count > i32::MAX as u64 {
            i32::MAX
        } else {
            count as i32
        };
        let m = match self.server.find_client(client_id) {
            Some(m) => m,
            None => return out,
        };
        proof {
            assert forall|w: int| #[trigger] the_client(old(self).server, client_id@, w) implies w == m by {
                old(self).server.lemma_unique_client(w, m as int);
            }
        }
        let mut entry = self.server.clients[m].clone_entry();
        let ok = entry.data.note_quota.spend(needed);
        let chid = copy_opt_string(&entry.data.channel_id);
        self.server.put_client(m, entry);
        if !ok {
            let mut frame: Vec<OutEvent> = Vec::new();
            frame.push(notification(None, String::from_str("You're playing too fast! Slow down."), 2000));
            push_opt(&mut out, self.server.send_to_client(client_id, frame));
            proof {
                reveal_strlit("You're playing too fast! Slow down.");
            }
            return out;
        }
        let chid = match chid {
            Some(c) => c,
            None => return out,
        };
        let i = match self.server.find_channel(chid.as_str()) {
            Some(i) => i,
            None => return out,
        };
        proof {
            assert forall|j: int|
                0 <= j < old(self).server.channels@.len() && opt_view(
                    old(self).server.clients@[m as int].data.channel_id,
                ) == Some(#[trigger] old(self).server.channels@[j]._id@) implies j == i by {
                old(self).server.lemma_unique_channel(j, i as int);
            }
        }
        if self.server.channels[i].settings.crownsolo == Some(true) {
            match &self.server.channels[i].crown {
                Some(c) => {
                    let holds = match &c.participant_id {
                        Some(h) => str_equal(h.as_str(), client_id),
                        None => false,
                    };
                    if !holds {
                        return out;
                    }
                },
                None => {},
            }
        }
        let mut frame: Vec<OutEvent> = Vec::new();
        frame.push(OutEvent::N { t: copy_opt_string(&data.t), n: notes.clone(), p: String::from_str(client_id) });
        push_opt(&mut out, self.server.broadcast_to_channel(chid.as_str(), frame, Some(client_id)));
        out
    }

    /// `m`: moves the client's cursor, at most once per interval, and tells the
    /// rest of the channel.
    pub fn handle_movement(&mut self, client_id: &str, data: &MessageData, now: u64) -> (r: Vec<Outbound>)
        requires
            old(self).wf(),
        ensures
            final(self).wf(),
            final(self).server.channels == old(self).server.channels,
            r@.len() <= 1,
            data.x.is_none() || data.y.is_none() ==> final(self).server == old(self).server
                && r@.len() == 0,
            forall|m: int|
                #[trigger] the_client(old(self).server, client_id@, m) && data.x.is_some()
                    && data.y.is_some() ==> the_client(final(self).server, client_id@, m) && if too_soon(
                    old(self).server.clients@[m].data.last_move_time,
                    now,
                ) {
                    final(self).server == old(self).server && r@.len() == 0
                } else {
                    &&& final(self).server.clients@[m].data.last_move_time == Some(now)
                    &&& match final(self).server.clients@[m].data.participant {
                        Some(p) => p.x == data.x.unwrap() && p.y == data.y.unwrap(),
                        None => old(self).server.clients@[m].data.participant.is_none(),
                    }
                    &&& forall|i: int|
                        0 <= i < old(self).server.channels@.len() && opt_view(
                            old(self).server.clients@[m].data.channel_id,
                        ) == Some(#[trigger] old(self).server.channels@[i]._id@) ==> r@.len() == 1
                            && r@[0].frame@.len() == 1 && r@[0].frame@[0] == (OutEvent::M {
                            id: r@[0].frame@[0]->M_id,
                            x: data.x.unwrap(),
                            y: data.y.unwrap(),
                        }) && (r@[0].frame@[0]->M_id)@ == client_id@ && ids_view(r@[0].recipients@)
                            == deliverable(
                            participant_ids(old(self).server.channels@[i].participants@),
                            Some(client_id@),
                            old(self).server.ws_senders@,
                        )
                },
    {
        let mut out: Vec<Outbound> = Vec::new();
        let x = match data.x {
            Some(v) => v,
            None => return out,
        };
        let y = match data.y {
            Some(v) => v,
            None => return out,
        };
        let m = match self.server.find_client(client_id) {
            Some(m) => m,
            None => return out,
        };
        proof {
            assert forall|w: int| #[trigger] the_client(old(self).server, client_id@, w) implies w == m by {
                old(self).server.lemma_unique_client(w, m as int);
            }
        }
        match self.server.clients[m].data.last_move_time {
            Some(last) => {
                if now < last || now - last < MOVE_INTERVAL_MS {
                    return out;
                }
            },
            None => {},
        }
        let mut entry = self.server.clients[m].clone_entry();
        entry.data.last_move_time = Some(now);
        match &mut entry.data.participant {
            Some(p) => {
                p.x = x;
                p.y = y;
            },
            None => {},
        }
        let chid = copy_opt_string(&entry.data.channel_id);
        self.server.put_client(m, entry);
        match chid {
            Some(c) => {
                let mut frame: Vec<OutEvent> = Vec::new();
                frame.push(OutEvent::M { id: String::from_str(client_id), x, y });
                push_opt(&mut out, self.server.broadcast_to_channel(c.as_str(), frame, Some(client_id)));
                proof {
                    assert forall|j: int, k: int|
                        0 <= j < self.server.channels@.len() && 0 <= k < self.server.channels@.len()
                            && self.server.channels@[j]._id@ == c@ && self.server.channels@[k]._id@
                            == c@ implies j == k by {
                        self.server.lemma_unique_channel(j, k);
                    }
                }
            },
            None => {},
        }
        out
    }

    /// `userset`: renames the client (and recolors it) and tells its channel.
    pub fn handle_userset(&mut self, client_id: &str, data: &MessageData) -> (r: Vec<Outbound>)
        requires
            old(self).wf(),
        ensures
            final(self).wf(),
            final(self).server.channels == old(self).server.channels,
            r@.len() <= 1,
            !(data.set.is_some() && data.set.unwrap().name.is_some() && name_ok(
                data.set.unwrap().name.unwrap()@,
            )) ==> final(self).server == old(self).server && r@.len() == 0,
            forall|m: int|
                #[trigger] the_client(old(self).server, client_id@, m) && data.set.is_some()
                    && data.set.unwrap().name.is_some() && name_ok(data.set.unwrap().name.unwrap()@)
                    && old(self).server.clients@[m].data.participant.is_some() ==> the_client(
                    final(self).server,
                    client_id@,
                    m,
                ) && named(
                    final(self).server.clients@[m].data.participant,
                    trim_of(data.set.unwrap().name.unwrap()@),
                ),
            forall|m: int|
                #[trigger] the_client(old(self).server, client_id@, m) && data.set.is_some()
                    && data.set.unwrap().name.is_some() && name_ok(data.set.unwrap().name.unwrap()@)
                    && old(self).server.clients@[m].data.participant.is_some() ==> {
                    let p0 = old(self).server.clients@[m].data.participant.unwrap();
                    let p1 = final(self).server.clients@[m].data.participant.unwrap();
                    let set = data.set.unwrap();
                    &&& final(self).server.clients@[m].data.participant.is_some()
                    &&& p1.id == p0.id && p1._id == p0._id && p1.x == p0.x && p1.y == p0.y
                    &&& p1.color == (match set.color {
                        Some(c) => c,
                        None => p0.color,
                    })
                    &&& final(self).server.clients@[m].data.channel_id == old(self).server.clients@[m].data.channel_id
                    &&& forall|i: int|
                        0 <= i < old(self).server.channels@.len() && opt_view(
                            old(self).server.clients@[m].data.channel_id,
                        ) == Some(#[trigger] old(self).server.channels@[i]._id@) ==> r@.len() == 1
                            && r@[0].frame@.len() == 1 && is_presence_of(r@[0].frame@[0], p1)
                            && ids_view(r@[0].recipients@) == deliverable(
                            participant_ids(old(self).server.channels@[i].participants@),
                            None,
                            old(self).server.ws_senders@,
                        )
                },
    {
        let mut out: Vec<Outbound> = Vec::new();
        let set = match &data.set {
            Some(s) => s,
            None => return out,
        };
        let name = match &set.name {
            Some(n) => n,
            None => return out,
        };
        let trimmed_name = trimmed(name.as_str());
        let len = byte_length(trimmed_name.as_str());
        if len == 0 || len > MAX_NAME_BYTES {
            return out;
        }
        let m = match self.server.find_client(client_id) {
            Some(m) => m,
            None => return out,
        };
        proof {
            assert forall|w: int| #[trigger] the_client(old(self).server, client_id@, w) implies w == m by {
                old(self).server.lemma_unique_client(w, m as int);
            }
        }
        let mut entry = self.server.clients[m].clone_entry();
        match &mut entry.data.participant {
            Some(p) => {
                p.name = trimmed_name;
                match &set.color {
                    Some(c) => {
                        p.color = c.clone();
                    },
                    None => {},
                }
            },
            None => {},
        }
        let chid = copy_opt_string(&entry.data.channel_id);
        let update = match &entry.data.participant {
            Some(p) => Some(presence(p)),
            None => None,
        };
        self.server.put_client(m, entry);
        match (chid, update) {
            (Some(c), Some(u)) => {
                let mut frame: Vec<OutEvent> = Vec::new();
                frame.push(u);
                push_opt(&mut out, self.server.broadcast_to_channel(c.as_str(), frame, None));
            },
            _ => {},
        }
        out
    }
}

pub open spec fn named(p: Option<Participant>, name: Seq<char>) -> bool {
    match p {
        Some(q) => q.name@ == name,
        None => false,
    }
}



impl MessageHandler {
    /// Moves client `m` (id `client_id`) into channel `target`, unless it is banned
    /// from it: the channel is created if needed, the old channel is left, the
    /// client is seated and takes an unclaimed crown, and the client, the channel
    /// and the directory are told.
    #[verifier::rlimit(100)]
    #[verifier::spinoff_prover]
    pub(crate) fn join(&mut self, client_id: &str, m: usize, target: &str, now: u64, out: &mut Vec<Outbound>)
        requires
            old(self).wf(),
            the_client(old(self).server, client_id@, m as int),
        ensures
            final(self).wf(),
            final(self).server.banned_users == old(self).server.banned_users,
            final(self).server.subscribed_to_ls == old(self).server.subscribed_to_ls,
            final(self).server.ws_senders == old(self).server.ws_senders,
            final(self).server.clients@.len() == old(self).server.clients@.len(),
            the_client(final(self).server, client_id@, m as int),
            forall|k: int| 0 <= k < old(out)@.len() ==> final(out)@[k] == old(out)@[k],
            final(out)@.len() >= old(out)@.len(),
            is_banned(
                old(self).server.banned_users@,
                old(self).server.clients@[m as int].data.user_id@,
                target@,
                now,
            ) ==> {
                &&& final(self).server == old(self).server
                &&& final(out)@.len() == old(out)@.len() + (if has_id(old(self).server.ws_senders@, client_id@) {
                    1int
                } else {
                    0
                })
                &&& final(out)@.len() > old(out)@.len() ==> {
                    let o = final(out)@[old(out)@.len() as int];
                    &&& ids_view(o.recipients@) == seq![client_id@]
                    &&& o.frame@.len() == 1
                    &&& exists|b: int|
                        0 <= b < old(self).server.banned_users@.len()
                            && #[trigger] old(self).server.banned_users@[b].user_id@
                            == old(self).server.clients@[m as int].data.user_id@
                            && old(self).server.banned_users@[b].info.channel_id@ == target@
                            && is_notice(
                            o.frame@[0],
                            Some("Notification-ban-"@ + decimal_of(now as nat)),
                            ban_text(target@, old(self).server.banned_users@[b].info.expiry),
                            5000,
                        )
                }
            },
            !is_banned(
                old(self).server.banned_users@,
                old(self).server.clients@[m as int].data.user_id@,
                target@,
                now,
            ) ==> seated(final(self).server, client_id@, target@),
            !is_banned(
                old(self).server.banned_users@,
                old(self).server.clients@[m as int].data.user_id@,
                target@,
                now,
            ) && !has_channel(old(self).server.channels@, target@) && !is_special_id(target@)
                ==> crown_held_by(final(self).server, target@, client_id@),
            !is_banned(
                old(self).server.banned_users@,
                old(self).server.clients@[m as int].data.user_id@,
                target@,
                now,
            ) ==> join_frames(
                old(self).server,
                final(self).server,
                client_id@,
                m as int,
                target@,
                old(out)@.len() as int,
                final(out)@,
            ),
    {
        let user = self.server.clients[m].data.user_id.clone();
        match self.active_ban(user.as_str(), target, now) {
            Some(expiry) => {
                let text = String::from_str("You are banned from ").concat(target).concat(" until ").concat(
                    rfc3339_of_millis(expiry).as_str(),
                ).concat(".");
                proof {
                    reveal_strlit("You are banned from ");
                    reveal_strlit(" until ");
                    reveal_strlit(".");
                    reveal_strlit("Notification-ban-");
                }
                let id = prefixed_time("Notification-ban-", now);
                let mut frame: Vec<OutEvent> = Vec::new();
                frame.push(notification(Some(id), text, 5000));
                push_opt(out, self.server.send_to_client(client_id, frame));
                return ;
            },
            None => {},
        }
        let ghost s0 = self.server;
        let ghost out0 = out@.len();
        let ghost gi: int;
        let created = self.server.find_channel(target).is_none();
        if created {
            let ch = self.server.create_default_channel(target, now);
            self.server.add_channel(ch);
            proof {
                gi = self.server.channels@.len() - 1;
            }
            push_opt(out, self.server.broadcast_ls_update(target, false));
        } else {
            proof {
                let j = choose|j: int| 0 <= j < self.server.channels@.len() && #[trigger] self.server.channels@[j]._id@ == target@;
                gi = j;
            }
        }
        assert(0 <= gi < self.server.channels@.len() && self.server.channels@[gi]._id@ == target@);
        let ghost s1 = self.server;
        proof {
            s1.lemma_member_only_in(client_id@, m as int);
        }
        let previous = copy_opt_string(&self.server.clients[m].data.channel_id);
        let mut left: Option<String> = None;
        let ghost mut k_bye: int = 0;
        let ghost mut s_bye = self.server;
        match previous {
            Some(o) => {
                if !str_equal(o.as_str(), target) {
                    self.server.step_out(client_id, o.as_str());
                    let mut bye: Vec<OutEvent> = Vec::new();
                    bye.push(OutEvent::Bye { p: String::from_str(client_id) });
                    proof {
                        k_bye = out@.len() as int;
                        s_bye = self.server;
                    }
                    push_opt(out, self.server.broadcast_to_channel(o.as_str(), bye, Some(client_id)));
                    proof {
                        assert forall|j: int|
                            0 <= j < self.server.channels@.len() && self.server.channels@[j]._id@ != target@
                                implies !has_participant(
                                #[trigger] self.server.channels@[j].participants@,
                                self.server.clients@[m as int].id@,
                            ) by {
                            if self.server.channels@[j]._id@ != o@ {
                                assert(self.server.channels@[j] == s1.channels@[j]);
                            }
                        }
                    }
                    left = Some(o);
                }
            },
            None => {},
        }
        let ghost s2 = self.server;
        assert(self.server.channels@[gi]._id@ == target@);
        assert(self.server.clients == s1.clients);
        self.server.set_channel_of(m, target);
        let p = match &self.server.clients[m].data.participant {
            Some(q) => Participant {
                id: String::from_str(client_id),
                _id: q._id.clone(),
                name: q.name.clone(),
                color: q.color.clone(),
                x: q.x,
                y: q.y,
            },
            None => {
                let q = default_participant(client_id, user.as_str());
                let mut entry = self.server.clients[m].clone_entry();
                entry.data.participant = Some(q.duplicate());
                self.server.put_client(m, entry);
                q
            },
        };
        let ghost s3 = self.server;
        let i = match self.server.find_channel(target) {
            Some(i) => i,
            None => {
                assert(self.server.channels@[gi]._id@ == target@);
                return ;
            },
        };
        proof {
            self.server.lemma_unique_channel(i as int, gi);
        }
        let seated_p = p.duplicate();
        self.server.seat(m, i, p, now);
        let ghost s4 = self.server;
        let info = channel_info(&self.server.channels[i]);
        let ppl = copy_participants(&self.server.channels[i].participants);
        let history = copy_history(&self.server.channels[i].chat_history);
        let mut frame: Vec<OutEvent> = Vec::new();
        frame.push(OutEvent::Ch { ch: info, ppl, p: Some(String::from_str(client_id)) });
        frame.push(OutEvent::C { c: history });
        let ghost k_join = out@.len();
        push_opt(out, self.server.send_to_client(client_id, frame));
        let mut arrival: Vec<OutEvent> = Vec::new();
        arrival.push(presence(&seated_p));
        let ghost k_arrival = out@.len();
        push_opt(out, self.server.broadcast_to_channel(target, arrival, Some(client_id)));
        let ghost k_ls = out@.len();
        push_opt(out, self.server.broadcast_ls_update(target, false));
        proof {
            s4.lemma_unique_channel(i as int, i as int);
            assert forall|j: int| 0 <= j < s4.channels@.len() && #[trigger] s4.channels@[j]._id@ == target@ implies j == i by {
                s4.lemma_unique_channel(j, i as int);
            }
        }
        let ghost out4 = out@;
        match left {
            Some(o) => {
                push_opt(out, self.server.drop_if_empty(o.as_str()));
            },
            None => {},
        }
        proof {
            let sf = self.server;
            let c = s4.channels@[i as int];
            let prev = opt_view(s0.clients@[m as int].data.channel_id);
            assert(s1.clients == s0.clients);
            assert(prev == opt_view(previous));
            // channels of s4 against s0, index by index
            assert(s4.channels@.len() == s1.channels@.len());
            assert forall|j: int| 0 <= j < s4.channels@.len() implies (#[trigger] s4.channels@[j])._id == s1.channels@[j]._id by {
                assert(s2.channels@[j]._id == s1.channels@[j]._id);
            }
            assert forall|j: int| 0 <= j < s1.channels@.len() implies #[trigger] s1.channels@[j]._id@ == target@ || has_channel(s0.channels@, s1.channels@[j]._id@) by {
                if j < s0.channels@.len() {
                    assert(s1.channels@[j] == s0.channels@[j]);
                }
            }
            assert forall|j: int| 0 <= j < sf.channels@.len() implies (#[trigger] sf.channels@[j])._id@ == target@ || has_channel(s0.channels@, sf.channels@[j]._id@) by {
                if sf.channels@ == s4.channels@ {
                    assert(s1.channels@[j]._id@ == target@ || has_channel(s0.channels@, s1.channels@[j]._id@));
                } else {
                    let io = choose|io: int| 0 <= io < s4.channels@.len() && #[trigger] s4.channels@[io]._id@ == left.unwrap()@ && sf.channels@ == s4.channels@.remove(io);
                    let j0 = if j < io { j } else { j + 1 };
                    assert(sf.channels@[j] == s4.channels@[j0]);
                    assert(s1.channels@[j0]._id@ == target@ || has_channel(s0.channels@, s1.channels@[j0]._id@));
                }
            }
            assert forall|j: int|
                0 <= j < s0.channels@.len() && (#[trigger] s0.channels@[j])._id@ != target@ && prev != Some(
                    s0.channels@[j]._id@,
                ) implies sf.channels@.contains(s0.channels@[j]) by {
                assert(s1.channels@[j] == s0.channels@[j]);
                assert(s2.channels@[j] == s1.channels@[j]);
                assert(j != i);
                assert(s4.channels@[j] == s3.channels@[j]);
                if sf.channels@ == s4.channels@ {
                    assert(sf.channels@[j] == s0.channels@[j]);
                } else {
                    let io = choose|io: int| 0 <= io < s4.channels@.len() && #[trigger] s4.channels@[io]._id@ == left.unwrap()@ && sf.channels@ == s4.channels@.remove(io);
                    assert(io != j);
                    let j1 = if j < io { j } else { j - 1 };
                    assert(sf.channels@[j1] == s0.channels@[j]);
                }
            }
            // the joined channel
            let jf: int = if sf.channels@ == s4.channels@ {
                i as int
            } else {
                let io = choose|io: int| 0 <= io < s4.channels@.len() && #[trigger] s4.channels@[io]._id@ == left.unwrap()@ && sf.channels@ == s4.channels@.remove(io);
                if io < i { i - 1 } else { i as int }
            };
            assert(0 <= jf < sf.channels@.len() && sf.channels@[jf] == c) by {
                if sf.channels@ != s4.channels@ {
                    let io = choose|io: int| 0 <= io < s4.channels@.len() && #[trigger] s4.channels@[io]._id@ == left.unwrap()@ && sf.channels@ == s4.channels@.remove(io);
                    assert(io != i);
                }
            }
            assert(sf.channels@[jf]._id@ == target@);
            if has_id(s0.ws_senders@, client_id@) {
                assert(ids_view(out@[k_join as int].recipients@) == seq![client_id@]);
                assert(is_join_frame(out@[k_join as int].frame@, c, client_id@));
            }
            assert(is_presence_of(out@[k_arrival as int].frame@[0], c.participants@.last()));
            if c.settings.visible {
                assert(is_ls_of(out@[k_ls as int].frame@[0], false, target@));
            }
            if !has_channel(s0.channels@, target@) {
                assert(s1.channels@[gi].participants@.len() == 0);
                assert(i == gi);
                assert(s3.channels@[i as int] == s2.channels@[i as int]);
                assert(without(s3.channels@[i as int].participants@, client_id@) =~= Seq::<Participant>::empty()) by {
                    reveal(Seq::filter);
                }
            }
            // the channel left
            assert forall|i0: int|
                0 <= i0 < s0.channels@.len() && prev == Some(#[trigger] s0.channels@[i0]._id@) && s0.channels@[i0]._id@
                    != target@ implies {
                    let ps = without(s0.channels@[i0].participants@, client_id@);
                    &&& exists|k: int|
                        out0 <= k < out@.len() && (#[trigger] out@[k]).frame@.len() == 1 && is_bye_of(
                            out@[k].frame@[0],
                            client_id@,
                        ) && ids_view(out@[k].recipients@) == deliverable(
                            participant_ids(ps),
                            Some(client_id@),
                            s0.ws_senders@,
                        )
                    &&& ps.len() == 0 && !is_special_id(s0.channels@[i0]._id@) ==> !has_channel(
                        sf.channels@,
                        s0.channels@[i0]._id@,
                    )
                } by {
                assert(s1.channels@[i0] == s0.channels@[i0]);
                assert(left.is_some());
                assert(s_bye.channels@[i0].participants@ == without(s0.channels@[i0].participants@, client_id@));
                assert forall|j: int| 0 <= j < s_bye.channels@.len() && #[trigger] s_bye.channels@[j]._id@ == s0.channels@[i0]._id@ implies j == i0 by {
                    s_bye.lemma_unique_channel(j, i0);
                }
                assert(out@[k_bye] == out4[k_bye]);
                assert(is_bye_of(out@[k_bye].frame@[0], client_id@));
                assert(i0 != i);
                assert(s4.channels@[i0] == s3.channels@[i0]);
                assert(s3.channels@[i0] == s_bye.channels@[i0]);
                if without(s0.channels@[i0].participants@, client_id@).len() == 0 && !is_special_id(s0.channels@[i0]._id@) {
                    assert(sf.channels@ == s4.channels@.remove(i0));
                    if has_channel(sf.channels@, s0.channels@[i0]._id@) {
                        let w = choose|w: int| 0 <= w < sf.channels@.len() && #[trigger] sf.channels@[w]._id@ == s0.channels@[i0]._id@;
                        let w0 = if w < i0 { w } else { w + 1 };
                        assert(sf.channels@[w] == s4.channels@[w0]);
                        s4.lemma_unique_channel(w0, i0);
                    }
                }
            }
            assert(c.participants@.last().id@ == client_id@);
            assert(has_participant(c.participants@, client_id@));
            assert(c.crown_ok());
            assert(the_client(self.server, client_id@, m as int));
            assert(out@.len() >= out4.len());
            assert forall|k: int| 0 <= k < out4.len() implies out@[k] == out4[k] by {}
        }
    }

    /// `ch`: joins the channel named by `_id` (the lobby for an overlong id).
    pub fn handle_channel(&mut self, client_id: &str, data: &MessageData, now: u64) -> (r: Vec<Outbound>)
        requires
            old(self).wf(),
        ensures
            final(self).wf(),
            final(self).server.banned_users == old(self).server.banned_users,
            final(self).server.subscribed_to_ls == old(self).server.subscribed_to_ls,
            final(self).server.ws_senders == old(self).server.ws_senders,
            join_outcome(old(self).server, final(self).server, client_id@, *data, now, r@),
    {
        let mut out: Vec<Outbound> = Vec::new();
        let raw = match &data._id {
            Some(t) => t,
            None => return out,
        };
        let target = if byte_length(raw.as_str()) > MAX_CHANNEL_ID_BYTES {
            String::from_str("lobby")
        } else {
            raw.clone()
        };
        proof {
            reveal_strlit("lobby");
        }
        assert(target@ == coerced_channel(raw@));
        let m = match self.server.find_client(client_id) {
            Some(m) => m,
            None => return out,
        };
        proof {
            assert forall|w: int| #[trigger] the_client(old(self).server, client_id@, w) implies w == m by {
                old(self).server.lemma_unique_client(w, m as int);
            }
        }
        self.join(client_id, m, target.as_str(), now, &mut out);
        out
    }
}

/// What a `ch` request from `cid` does: nothing without `_id`; a client banned
/// from the named channel only gets a notice; any other client is seated there,
/// and takes the crown of an ordinary channel that the request created.
pub open spec fn join_outcome(
    before: Server,
    after: Server,
    cid: Seq<char>,
    data: MessageData,
    now: u64,
    sent: Seq<Outbound>,
) -> bool {
    &&& data._id.is_none() ==> after == before && sent.len() == 0
    &&& !has_client(before.clients@, cid) ==> after == before && sent.len() == 0
    &&& forall|m: int|
        #[trigger] the_client(before, cid, m) && data._id.is_some() ==> {
            let target = coerced_channel(data._id.unwrap()@);
            let user = before.clients@[m].data.user_id@;
            &&& is_banned(before.banned_users@, user, target, now) ==> after == before && sent.len() == (
            if has_id(before.ws_senders@, cid) {
                1int
            } else {
                0
            })
            &&& is_banned(before.banned_users@, user, target, now) && sent.len() == 1 ==> {
                &&& ids_view(sent[0].recipients@) == seq![cid]
                &&& sent[0].frame@.len() == 1
                &&& exists|b: int|
                    0 <= b < before.banned_users@.len() && #[trigger] before.banned_users@[b].user_id@ == user
                        && before.banned_users@[b].info.channel_id@ == target && is_notice(
                        sent[0].frame@[0],
                        Some("Notification-ban-"@ + decimal_of(now as nat)),
                        ban_text(target, before.banned_users@[b].info.expiry),
                        5000,
                    )
            }
            &&& !is_banned(before.banned_users@, user, target, now) ==> join_frames(
                before,
                after,
                cid,
                m,
                target,
                0,
                sent,
            )
            &&& !is_banned(before.banned_users@, user, target, now) ==> seated(after, cid, target)
            &&& !is_banned(before.banned_users@, user, target, now) && !has_channel(
                before.channels@,
                target,
            ) && !is_special_id(target) ==> crown_held_by(after, target, cid)
        }
}

/// The reply to a `t` request: the echo of `e` stamped `now`, for a live connection.
pub open spec fn time_reply(s: Server, cid: Seq<char>, data: MessageData, now: u64, r: Seq<Outbound>) -> bool {
    &&& data.e.is_none() ==> r.len() == 0
    &&& data.e.is_some() ==> r.len() == (if has_id(s.ws_senders@, cid) {
        1int
    } else {
        0
    })
    &&& r.len() == 1 ==> ids_view(r[0].recipients@) == seq![cid] && r[0].frame@.len() == 1
        && r[0].frame@[0] == (OutEvent::T { t: now, e: data.e.unwrap() })
}

/// After `bye` or a disconnect, `cid` has no record, no subscription and no seat.
pub open spec fn gone(s: Server, cid: Seq<char>) -> bool {
    &&& !has_client(s.clients@, cid)
    &&& !has_id(s.subscribed_to_ls@, cid)
    &&& forall|i: int|
        0 <= i < s.channels@.len() ==> !has_participant(#[trigger] s.channels@[i].participants@, cid)
}

/// The text of the notice to a client banned from `ch` until `expiry`.
pub open spec fn ban_text(ch: Seq<char>, expiry: u64) -> Seq<char> {
    "You are banned from "@ + ch + " until "@ + rfc3339_of((expiry / 1000) as i64) + "."@
}

/// The frame that shows channel `c` to `cid` as it joins: the channel, its
/// members, the joiner, and the chat history.
pub open spec fn is_join_frame(frame: Seq<OutEvent>, c: Channel, cid: Seq<char>) -> bool {
    &&& frame.len() == 2
    &&& match frame[0] {
        OutEvent::Ch { ch, ppl, p } => ch._id == c._id && ch.settings == c.settings && ch.crown
            == c.crown && ppl@ == c.participants@ && opt_view(p) == Some(cid),
        _ => false,
    }
    &&& match frame[1] {
        OutEvent::C { c: h } => h@ == c.chat_history@,
        _ => false,
    }
}

/// The presence event of participant `p`.
pub open spec fn is_presence_of(e: OutEvent, p: Participant) -> bool {
    match e {
        OutEvent::P { id, _id, name, color, x, y } => id == p.id && _id == p._id && name == p.name
            && color == p.color && x == p.x && y == p.y,
        _ => false,
    }
}

/// The frames and channels after client `m` (id `cid`) joined `target`, the
/// frames of the join being `sent` from index `k0` on.
pub open spec fn join_frames(
    before: Server,
    after: Server,
    cid: Seq<char>,
    m: int,
    target: Seq<char>,
    k0: int,
    sent: Seq<Outbound>,
) -> bool {
    let s0 = before;
    let s1 = after;
    let prev = opt_view(s0.clients@[m].data.channel_id);
    &&& forall|j: int|
        0 <= j < s1.channels@.len() ==> (#[trigger] s1.channels@[j])._id@ == target || has_channel(
            s0.channels@,
            s1.channels@[j]._id@,
        )
    &&& forall|j: int|
        0 <= j < s0.channels@.len() && (#[trigger] s0.channels@[j])._id@ != target && prev != Some(
            s0.channels@[j]._id@,
        ) ==> s1.channels@.contains(s0.channels@[j])
    &&& exists|j: int|
        0 <= j < s1.channels@.len() && #[trigger] s1.channels@[j]._id@ == target && {
            let c = s1.channels@[j];
            &&& has_id(s0.ws_senders@, cid) ==> exists|k: int|
                k0 <= k < sent.len() && ids_view(#[trigger] sent[k].recipients@) == seq![cid]
                    && is_join_frame(sent[k].frame@, c, cid)
            &&& exists|k: int|
                k0 <= k < sent.len() && (#[trigger] sent[k]).frame@.len() == 1 && is_presence_of(
                    sent[k].frame@[0],
                    c.participants@.last(),
                ) && ids_view(sent[k].recipients@) == deliverable(
                    participant_ids(c.participants@),
                    Some(cid),
                    s0.ws_senders@,
                )
            &&& c.settings.visible ==> exists|k: int|
                k0 <= k < sent.len() && (#[trigger] sent[k]).frame@.len() == 1 && is_ls_of(
                    sent[k].frame@[0],
                    false,
                    target,
                )
            &&& c.participants@.last().id@ == cid
            &&& !has_channel(s0.channels@, target) ==> c.participants@.len() == 1 && (!is_special_id(
                target,
            ) ==> c.crown.unwrap().user_id == Some(s0.clients@[m].data.user_id))
        }
    &&& forall|i: int|
        0 <= i < s0.channels@.len() && prev == Some(#[trigger] s0.channels@[i]._id@) && s0.channels@[i]._id@
            != target ==> {
            let ps = without(s0.channels@[i].participants@, cid);
            &&& exists|k: int|
                k0 <= k < sent.len() && (#[trigger] sent[k]).frame@.len() == 1 && is_bye_of(
                    sent[k].frame@[0],
                    cid,
                ) && ids_view(sent[k].recipients@) == deliverable(
                    participant_ids(ps),
                    Some(cid),
                    s0.ws_senders@,
                )
            &&& ps.len() == 0 && !is_special_id(s0.channels@[i]._id@) ==> !has_channel(
                s1.channels@,
                s0.channels@[i]._id@,
            )
        }
}

pub open spec fn is_bye_of(e: OutEvent, cid: Seq<char>) -> bool {
    match e {
        OutEvent::Bye { p } => p@ == cid,
        _ => false,
    }
}

/// Client `w` is the first with user id `user` that sits in channel `ch`.
pub open spec fn is_first_member(s: Server, user: Seq<char>, ch: Seq<char>, w: int) -> bool {
    &&& 0 <= w < s.clients@.len()
    &&& s.clients@[w].data.user_id@ == user
    &&& opt_view(s.clients@[w].data.channel_id) == Some(ch)
    &&& forall|v: int|
        0 <= v < w ==> !(#[trigger] s.clients@[v].data.user_id@ == user && opt_view(
            s.clients@[v].data.channel_id,
        ) == Some(ch))
}

/// A kickban lasts at most a day.
pub open spec fn clamp_ban(ms: u64) -> u64 {
    if ms > MAX_BAN_MS {
        MAX_BAN_MS
    } else {
        ms
    }
}

/// The display name in a participant record, empty without one.
pub open spec fn name_of(p: Option<Participant>) -> Seq<char> {
    match p {
        Some(q) => q.name@,
        None => Seq::empty(),
    }
}

/// The notice to a kicked member.
pub open spec fn private_ban_text(ch: Seq<char>, secs: nat) -> Seq<char> {
    "You have been banned from "@ + ch + " for "@ + decimal_of(secs) + " seconds."@
}

/// The notice to the channel of a kickban by `banner` of `target`.
pub open spec fn channel_ban_text(banner: Seq<char>, target: Seq<char>, secs: nat, self_ban: bool) -> Seq<char> {
    if self_ban {
        "Let it be known that "@ + banner + " kickbanned him/her self."@
    } else {
        banner + " banned "@ + target + " for "@ + decimal_of(secs) + " seconds."@
    }
}

/// The crown of channel `ch` is held by `cid`.
pub open spec fn crown_held_by(s: Server, ch: Seq<char>, cid: Seq<char>) -> bool {
    exists|i: int|
        0 <= i < s.channels@.len() && #[trigger] s.channels@[i]._id@ == ch && crown_holder(
            s.channels@[i].crown,
        ) == Some(cid)
}

/// Settings after a `chset` with fields `set`.
pub open spec fn apply_set(st: ChannelSettings, set: SetFields) -> ChannelSettings {
    ChannelSettings {
        color: match set.color {
            Some(c) => c,
            None => st.color,
        },
        color2: st.color2,
        lobby: st.lobby,
        visible: match set.visible {
            Some(v) => v,
            None => st.visible,
        },
        chat: match set.chat {
            Some(v) => Some(v),
            None => st.chat,
        },
        crownsolo: match set.crownsolo {
            Some(v) => Some(v),
            None => st.crownsolo,
        },
    }
}

/// Client `m` (id `cid`) sits in channel `i`, an ordinary one whose crown it holds.
pub open spec fn is_owner(s: Server, cid: Seq<char>, m: int, i: int) -> bool {
    &&& the_client(s, cid, m)
    &&& 0 <= i < s.channels@.len()
    &&& opt_view(s.clients@[m].data.channel_id) == Some(s.channels@[i]._id@)
    &&& !is_special_id(s.channels@[i]._id@)
    &&& !s.channels@[i].settings.lobby
    &&& holds_crown(s.channels@[i], cid)
}

/// A ban of `user` from `ch` until `expiry` is recorded.
pub open spec fn has_ban(bans: Seq<BanEntry>, user: Seq<char>, ch: Seq<char>, expiry: u64) -> bool {
    exists|b: int|
        0 <= b < bans.len() && #[trigger] bans[b].user_id@ == user && bans[b].info.channel_id@ == ch
            && bans[b].info.expiry == expiry
}

/// No ban of `user` is recorded.
pub open spec fn no_ban(bans: Seq<BanEntry>, user: Seq<char>) -> bool {
    forall|b: int| 0 <= b < bans.len() ==> #[trigger] bans[b].user_id@ != user
}

impl MessageHandler {
    /// Locates the channel of client `m` when the client sits in an ordinary
    /// channel whose crown it holds.
    fn owned_channel(&self, client_id: &str, m: usize) -> (r: Option<usize>)
        requires
            self.wf(),
            the_client(self.server, client_id@, m as int),
        ensures
            match r {
                Some(i) => is_owner(self.server, client_id@, m as int, i as int),
                None => forall|i: int| !is_owner(self.server, client_id@, m as int, i),
            },
    {
        let chid = match &self.server.clients[m].data.channel_id {
            Some(c) => c,
            None => return None,
        };
        let i = match self.server.find_channel(chid.as_str()) {
            Some(i) => i,
            None => return None,
        };
        proof {
            assert forall|j: int| is_owner(self.server, client_id@, m as int, j) implies j == i by {
                self.server.lemma_unique_channel(j, i as int);
            }
        }
        if is_special(chid.as_str()) || self.server.channels[i].settings.lobby {
            return None;
        }
        let held = match &self.server.channels[i].crown {
            Some(c) => match &c.participant_id {
                Some(h) => str_equal(h.as_str(), client_id),
                None => false,
            },
            None => false,
        };
        if held {
            Some(i)
        } else {
            None
        }
    }

    /// `chset`: the crown holder changes the settings of an ordinary channel.
    pub fn handle_channel_settings(&mut self, client_id: &str, data: &MessageData) -> (r: Vec<Outbound>)
        requires
            old(self).wf(),
        ensures
            final(self).wf(),
            final(self).server.clients == old(self).server.clients,
            final(self).server.banned_users == old(self).server.banned_users,
            final(self).server.subscribed_to_ls == old(self).server.subscribed_to_ls,
            final(self).server.ws_senders == old(self).server.ws_senders,
            r@.len() <= 2,
            data.set.is_none() ==> final(self).server == old(self).server && r@.len() == 0,
            forall|m: int, i: int|
                #[trigger] is_owner(old(self).server, client_id@, m, i) && data.set.is_some() ==> {
                    &&& final(self).server.channels@[i].settings == apply_set(
                        old(self).server.channels@[i].settings,
                        data.set.unwrap(),
                    )
                    &&& final(self).server.channels@[i].crown == old(self).server.channels@[i].crown
                    &&& final(self).server.channels@[i].participants == old(self).server.channels@[i].participants
                    &&& final(self).server.channels@[i]._id == old(self).server.channels@[i]._id
                    &&& r@.len() >= 1
                    &&& r@[0].frame@.len() == 1
                    &&& is_channel_update(r@[0].frame@[0], final(self).server.channels@[i])
                    &&& ids_view(r@[0].recipients@) == deliverable(
                        participant_ids(final(self).server.channels@[i].participants@),
                        None,
                        final(self).server.ws_senders@,
                    )
                    &&& r@.len() == (if final(self).server.channels@[i].settings.visible {
                        2int
                    } else {
                        1
                    })
                    &&& r@.len() == 2 ==> r@[1].frame@.len() == 1 && is_ls_of(
                        r@[1].frame@[0],
                        false,
                        final(self).server.channels@[i]._id@,
                    ) && ids_view(r@[1].recipients@) == deliverable(
                        ids_view(final(self).server.subscribed_to_ls@),
                        None,
                        final(self).server.ws_senders@,
                    )
                },
            forall|m: int|
                #[trigger] the_client(old(self).server, client_id@, m) && (forall|i: int|
                    !is_owner(old(self).server, client_id@, m, i)) ==> final(self).server == old(
                    self,
                ).server && r@.len() == 0,
    {
        let mut out: Vec<Outbound> = Vec::new();
        let set = match &data.set {
            Some(s) => s,
            None => return out,
        };
        let m = match self.server.find_client(client_id) {
            Some(m) => m,
            None => return out,
        };
        proof {
            assert forall|w: int| #[trigger] the_client(old(self).server, client_id@, w) implies w == m by {
                old(self).server.lemma_unique_client(w, m as int);
            }
        }
        let i = match self.owned_channel(client_id, m) {
            Some(i) => i,
            None => return out,
        };
        proof {
            assert forall|j: int| is_owner(old(self).server, client_id@, m as int, j) implies j == i by {
                old(self).server.lemma_unique_channel(j, i as int);
            }
        }
        let st = &self.server.channels[i].settings;
        let settings = ChannelSettings {
            color: match &set.color {
                Some(c) => c.clone(),
                None => st.color.clone(),
            },
            color2: copy_opt_string(&st.color2),
            lobby: st.lobby,
            visible: match set.visible {
                Some(v) => v,
                None => st.visible,
            },
            chat: match set.chat {
                Some(v) => Some(v),
                None => st.chat,
            },
            crownsolo: match set.crownsolo {
                Some(v) => Some(v),
                None => st.crownsolo,
            },
        };
        self.server.put_settings(i, settings);
        let chid = self.server.channels[i]._id.clone();
        let info = channel_info(&self.server.channels[i]);
        let ppl = copy_participants(&self.server.channels[i].participants);
        let mut frame: Vec<OutEvent> = Vec::new();
        frame.push(OutEvent::Ch { ch: info, ppl, p: None });
        push_opt(&mut out, self.server.broadcast_to_channel(chid.as_str(), frame, None));
        push_opt(&mut out, self.server.broadcast_ls_update(chid.as_str(), false));
        out
    }

    /// `chown`: the crown holder hands the crown to another member, or releases it.
    pub fn handle_chown(&mut self, client_id: &str, data: &MessageData, now: u64) -> (r: Vec<Outbound>)
        requires
            old(self).wf(),
        ensures
            final(self).wf(),
            final(self).server.clients == old(self).server.clients,
            final(self).server.banned_users == old(self).server.banned_users,
            final(self).server.subscribed_to_ls == old(self).server.subscribed_to_ls,
            final(self).server.ws_senders == old(self).server.ws_senders,
            r@.len() <= 1,
            forall|m: int, i: int, w: int|
                #[trigger] is_owner(old(self).server, client_id@, m, i) && #[trigger] the_client(
                    old(self).server,
                    data.id.unwrap()@,
                    w,
                ) && data.id.is_some() && has_participant(
                    old(self).server.channels@[i].participants@,
                    data.id.unwrap()@,
                ) && old(self).server.clients@[m].data.participant.is_some()
                    && old(self).server.clients@[w].data.participant.is_some() ==> {
                    let owner = old(self).server.clients@[m].data.participant.unwrap();
                    let target = old(self).server.clients@[w].data.participant.unwrap();
                    r@.len() == 1 && final(self).server.channels@[i].crown == Some(
                        Crown {
                            participant_id: data.id,
                            user_id: Some(old(self).server.clients@[w].data.user_id),
                            time: now,
                            start_pos: Position { x: owner.x, y: owner.y },
                            end_pos: Position { x: target.x, y: target.y },
                        },
                    )
                },
            forall|m: int, i: int|
                #[trigger] is_owner(old(self).server, client_id@, m, i) && data.id.is_none()
                    && old(self).server.clients@[m].data.participant.is_some() ==> {
                    let owner = old(self).server.clients@[m].data.participant.unwrap();
                    r@.len() == 1 && final(self).server.channels@[i].crown == Some(
                        Crown {
                            participant_id: None,
                            user_id: Some(owner._id),
                            time: now,
                            start_pos: Position { x: owner.x, y: owner.y },
                            end_pos: Position { x: owner.x, y: owner.y },
                        },
                    )
                },
            forall|m: int, i: int|
                #[trigger] is_owner(old(self).server, client_id@, m, i) && r@.len() == 1 ==> r@[0].frame@.len()
                    == 1 && is_channel_update(r@[0].frame@[0], final(self).server.channels@[i])
                    && ids_view(r@[0].recipients@) == deliverable(
                    participant_ids(final(self).server.channels@[i].participants@),
                    None,
                    final(self).server.ws_senders@,
                ),

            forall|m: int|
                #[trigger] the_client(old(self).server, client_id@, m) && (forall|i: int|
                    !is_owner(old(self).server, client_id@, m, i)) ==> final(self).server == old(
                    self,
                ).server && r@.len() == 0,
    {
        let mut out: Vec<Outbound> = Vec::new();
        let m = match self.server.find_client(client_id) {
            Some(m) => m,
            None => return out,
        };
        proof {
            assert forall|w: int| #[trigger] the_client(old(self).server, client_id@, w) implies w == m by {
                old(self).server.lemma_unique_client(w, m as int);
            }
        }
        let owner = match &self.server.clients[m].data.participant {
            Some(p) => p.duplicate(),
            None => return out,
        };
        let i = match self.owned_channel(client_id, m) {
            Some(i) => i,
            None => return out,
        };
        proof {
            assert forall|j: int| is_owner(old(self).server, client_id@, m as int, j) implies j == i by {
                old(self).server.lemma_unique_channel(j, i as int);
            }
        }
        match &data.id {
            Some(t) => {
                let member = self.member_of(i, t.as_str());
                let w = self.server.find_client(t.as_str());
                match (member, w) {
                    (true, Some(w)) => {
                        match &self.server.clients[w].data.participant {
                            Some(tp) => {
                                let crown = Crown {
                                    participant_id: Some(t.clone()),
                                    user_id: Some(self.server.clients[w].data.user_id.clone()),
                                    time: now,
                                    start_pos: Position { x: owner.x, y: owner.y },
                                    end_pos: Position { x: tp.x, y: tp.y },
                                };
                                self.server.put_crown(i, crown);
                            },
                            None => return out,
                        }
                    },
                    _ => {},
                }
            },
            None => {
                let crown = Crown {
                    participant_id: None,
                    user_id: Some(owner._id.clone()),
                    time: now,
                    start_pos: Position { x: owner.x, y: owner.y },
                    end_pos: Position { x: owner.x, y: owner.y },
                };
                self.server.put_crown(i, crown);
            },
        }
        let chid = self.server.channels[i]._id.clone();
        let info = channel_info(&self.server.channels[i]);
        let ppl = copy_participants(&self.server.channels[i].participants);
        let mut frame: Vec<OutEvent> = Vec::new();
        frame.push(OutEvent::Ch { ch: info, ppl, p: None });
        push_opt(&mut out, self.server.broadcast_to_channel(chid.as_str(), frame, None));
        out
    }

    /// Whether `id` is a member of channel `i`.
    fn member_of(&self, i: usize, id: &str) -> (r: bool)
        requires
            i < self.server.channels@.len(),
        ensures
            r == has_participant(self.server.channels@[i as int].participants@, id@),
    {
        let ps = &self.server.channels[i].participants;
        let mut k: usize = 0;
        while k < ps.len()
            invariant
                ps == &self.server.channels@[i as int].participants,
                k <= ps@.len(),
                forall|j: int| 0 <= j < k ==> ps@[j].id@ != id@,
            decreases ps@.len() - k,
        {
            if str_equal(ps[k].id.as_str(), id) {
                return true;
            }
            k = k + 1;
        }
        false
    }
}


impl MessageHandler {
    /// Removes every ban of `user`.
    fn lift_bans(&mut self, user: &str)
        requires
            old(self).wf(),
        ensures
            final(self).wf(),
            no_ban(final(self).server.banned_users@, user@),
            forall|u: Seq<char>, ch: Seq<char>, t: u64|
                u != user@ ==> (is_banned(final(self).server.banned_users@, u, ch, t) == is_banned(
                    old(self).server.banned_users@,
                    u,
                    ch,
                    t,
                )),
            final(self).server.channels == old(self).server.channels,
            final(self).server.clients == old(self).server.clients,
            final(self).server.subscribed_to_ls == old(self).server.subscribed_to_ls,
            final(self).server.ws_senders == old(self).server.ws_senders,
    {
        let bans = &self.server.banned_users;
        let mut kept: Vec<BanEntry> = Vec::new();
        let mut b: usize = 0;
        while b < bans.len()
            invariant
                bans == &old(self).server.banned_users,
                b <= bans@.len(),
                forall|k: int| 0 <= k < kept@.len() ==> (#[trigger] kept@[k]).user_id@ != user@,
                forall|k: int| 0 <= k < kept@.len() ==> bans@.take(b as int).contains(#[trigger] kept@[k]),
                forall|j: int| 0 <= j < b && (#[trigger] bans@[j]).user_id@ != user@ ==> kept@.contains(bans@[j]),
            decreases bans@.len() - b,
        {
            let ghost before = kept@;
            if !str_equal(bans[b].user_id.as_str(), user) {
                let e = BanEntry {
                    user_id: bans[b].user_id.clone(),
                    info: BanInfo { channel_id: bans[b].info.channel_id.clone(), expiry: bans[b].info.expiry },
                };
                assert(e == bans@[b as int]);
                kept.push(e);
                assert(kept@[kept@.len() - 1] == bans@[b as int]);
            }
            assert forall|k: int| 0 <= k < kept@.len() implies bans@.take(b as int + 1).contains(#[trigger] kept@[k]) by {
                if k < kept@.len() - 1 || bans@[b as int].user_id@ == user@ {
                    assert(bans@.take(b as int).contains(kept@[k]));
                    let q = choose|q: int| 0 <= q < b && bans@.take(b as int)[q] == kept@[k];
                    assert(bans@.take(b as int + 1)[q] == kept@[k]);
                } else {
                    assert(bans@.take(b as int + 1)[b as int] == kept@[k]);
                }
            }
            assert forall|j: int| 0 <= j < b + 1 && (#[trigger] bans@[j]).user_id@ != user@ implies kept@.contains(bans@[j]) by {
                if j < b {
                    let q = choose|q: int| 0 <= q < before.len() && before[q] == bans@[j];
                    assert(kept@[q] == before[q]);
                } else {
                    assert(kept@[kept@.len() - 1] == bans@[b as int]);
                }
            }
            b = b + 1;
        }
        proof {
            let nb = kept@;
            let ob = bans@;
            assert(ob.take(ob.len() as int) =~= ob);
            assert forall|u: Seq<char>, ch: Seq<char>, t: u64|
                u != user@ implies (is_banned(nb, u, ch, t) == is_banned(ob, u, ch, t)) by {
                if is_banned(nb, u, ch, t) {
                    let k = choose|k: int|
                        0 <= k < nb.len() && #[trigger] nb[k].user_id@ == u && nb[k].info.channel_id@ == ch
                            && nb[k].info.expiry > t;
                    assert(ob.contains(nb[k]));
                    let j = choose|j: int| 0 <= j < ob.len() && ob[j] == nb[k];
                    assert(ob[j].user_id@ == u);
                }
                if is_banned(ob, u, ch, t) {
                    let j = choose|j: int|
                        0 <= j < ob.len() && #[trigger] ob[j].user_id@ == u && ob[j].info.channel_id@ == ch
                            && ob[j].info.expiry > t;
                    assert(nb.contains(ob[j]));
                    let k = choose|k: int| 0 <= k < nb.len() && nb[k] == ob[j];
                    assert(nb[k].user_id@ == u);
                }
            }
        }
        self.server.banned_users = kept;
    }

    /// Records a ban of `user` from `ch` until `expiry`, replacing earlier bans of `user`.
    fn record_ban(&mut self, user: &str, ch: &str, expiry: u64)
        requires
            old(self).wf(),
        ensures
            final(self).wf(),
            has_ban(final(self).server.banned_users@, user@, ch@, expiry),
            forall|c: Seq<char>, t: u64|
                is_banned(final(self).server.banned_users@, user@, c, t) ==> c == ch@ && expiry > t,
            forall|u: Seq<char>, c: Seq<char>, t: u64|
                u != user@ ==> (is_banned(final(self).server.banned_users@, u, c, t) == is_banned(
                    old(self).server.banned_users@,
                    u,
                    c,
                    t,
                )),
            final(self).server.channels == old(self).server.channels,
            final(self).server.clients == old(self).server.clients,
            final(self).server.subscribed_to_ls == old(self).server.subscribed_to_ls,
            final(self).server.ws_senders == old(self).server.ws_senders,
    {
        self.lift_bans(user);
        let ghost mid = self.server.banned_users@;
        self.server.banned_users.push(
            BanEntry { user_id: String::from_str(user), info: BanInfo { channel_id: String::from_str(ch), expiry } },
        );
        proof {
            let nb = self.server.banned_users@;
            let n = mid.len() as int;
            assert(nb[n].user_id@ == user@);
            assert forall|c: Seq<char>, t: u64|
                is_banned(nb, user@, c, t) implies c == ch@ && expiry > t by {
                let k = choose|k: int|
                    0 <= k < nb.len() && #[trigger] nb[k].user_id@ == user@ && nb[k].info.channel_id@ == c
                        && nb[k].info.expiry > t;
                if k < n {
                    assert(nb[k] == mid[k]);
                }
            }
            assert forall|u: Seq<char>, c: Seq<char>, t: u64|
                u != user@ implies (is_banned(nb, u, c, t) == is_banned(mid, u, c, t)) by {
                if is_banned(nb, u, c, t) {
                    let k = choose|k: int|
                        0 <= k < nb.len() && #[trigger] nb[k].user_id@ == u && nb[k].info.channel_id@ == c
                            && nb[k].info.expiry > t;
                    assert(k < n);
                    assert(nb[k] == mid[k]);
                }
                if is_banned(mid, u, c, t) {
                    let k = choose|k: int|
                        0 <= k < mid.len() && #[trigger] mid[k].user_id@ == u && mid[k].info.channel_id@ == c
                            && mid[k].info.expiry > t;
                    assert(nb[k] == mid[k]);
                }
            }
        }
    }

    /// The first client with user id `user` that sits in channel `ch`.
    fn find_user_in(&self, user: &str, ch: &str) -> (r: Option<usize>)
        ensures
            match r {
                Some(w) => is_first_member(self.server, user@, ch@, w as int),
                None => forall|w: int|
                    0 <= w < self.server.clients@.len() ==> !(
                    #[trigger] self.server.clients@[w].data.user_id@ == user@ && opt_view(
                        self.server.clients@[w].data.channel_id,
                    ) == Some(ch@)),
            },
    {
        let mut w: usize = 0;
        while w < self.server.clients.len()
            invariant
                w <= self.server.clients@.len(),
                forall|j: int|
                    0 <= j < w ==> !(#[trigger] self.server.clients@[j].data.user_id@ == user@ && opt_view(
                        self.server.clients@[j].data.channel_id,
                    ) == Some(ch@)),
            decreases self.server.clients@.len() - w,
        {
            let c = &self.server.clients[w].data;
            if str_equal(c.user_id.as_str(), user) {
                match &c.channel_id {
                    Some(x) => {
                        if str_equal(x.as_str(), ch) {
                            return Some(w);
                        }
                    },
                    None => {},
                }
            }
            w = w + 1;
        }
        None
    }

    /// `kickban`: the crown holder bans a member of the channel for up to a day
    /// and sends it to "test/awkward".
    pub fn handle_kickban(&mut self, client_id: &str, data: &MessageData, now: u64) -> (r: Vec<Outbound>)
        requires
            old(self).wf(),
        ensures
            final(self).wf(),
            final(self).server.subscribed_to_ls == old(self).server.subscribed_to_ls,
            final(self).server.ws_senders == old(self).server.ws_senders,
            data._id.is_none() || data.ms.is_none() ==> final(self).server == old(self).server
                && r@.len() == 0,
            forall|m: int|
                #[trigger] the_client(old(self).server, client_id@, m) && (forall|i: int|
                    !is_owner(old(self).server, client_id@, m, i)) ==> final(self).server == old(
                    self,
                ).server && r@.len() == 0,
            forall|m: int, i: int, w: int|
                #[trigger] is_owner(old(self).server, client_id@, m, i) && data._id.is_some()
                    && data.ms.is_some() && old(self).server.clients@[m].data.participant.is_some()
                    && #[trigger] is_first_member(
                    old(self).server,
                    data._id.unwrap()@,
                    old(self).server.channels@[i]._id@,
                    w,
                ) ==> {
                    let ch = old(self).server.channels@[i]._id@;
                    let target = data._id.unwrap()@;
                    let kicked = old(self).server.clients@[w].id@;
                    let secs = (clamp_ban(data.ms.unwrap()) / 1000) as nat;
                    let stamp = Some("ban-"@ + decimal_of(now as nat));
                    &&& has_ban(
                        final(self).server.banned_users@,
                        target,
                        ch,
                        ban_expiry(now, data.ms.unwrap()),
                    )
                    &&& forall|u: Seq<char>, c: Seq<char>, t: u64|
                        u != target ==> (is_banned(final(self).server.banned_users@, u, c, t) == is_banned(
                            old(self).server.banned_users@,
                            u,
                            c,
                            t,
                        ))
                    &&& seated(final(self).server, kicked, "test/awkward"@)
                    &&& has_id(old(self).server.ws_senders@, kicked) ==> exists|k: int|
                        0 <= k < r@.len() && ids_view(#[trigger] r@[k].recipients@) == seq![kicked]
                            && r@[k].frame@.len() == 1 && is_notice(
                            r@[k].frame@[0],
                            stamp,
                            private_ban_text(ch, secs),
                            5000,
                        )
                    &&& has_channel(final(self).server.channels@, ch) ==> exists|k: int|
                        0 <= k < r@.len() && (#[trigger] r@[k]).frame@.len() == 1 && is_notice(
                            r@[k].frame@[0],
                            stamp,
                            channel_ban_text(
                                old(self).server.clients@[m].data.participant.unwrap().name@,
                                name_of(old(self).server.clients@[w].data.participant),
                                secs,
                                old(self).server.clients@[m].data.user_id@ == target,
                            ),
                            5000,
                        )
                },
            forall|m: int, i: int|
                #[trigger] is_owner(old(self).server, client_id@, m, i) && data._id.is_some() && (
                forall|w: int|
                    0 <= w < old(self).server.clients@.len() ==> !(
                    #[trigger] old(self).server.clients@[w].data.user_id@ == data._id.unwrap()@
                        && opt_view(old(self).server.clients@[w].data.channel_id) == Some(
                        old(self).server.channels@[i]._id@,
                    ))) ==> final(self).server == old(self).server && r@.len() == 0,
    {
        let mut out: Vec<Outbound> = Vec::new();
        let target_user = match &data._id {
            Some(t) => t,
            None => return out,
        };
        let ms = match data.ms {
            Some(v) => v,
            None => return out,
        };
        let duration: u64 = if ms > MAX_BAN_MS {
            MAX_BAN_MS
        } else {
            ms
        };
        let m = match self.server.find_client(client_id) {
            Some(m) => m,
            None => return out,
        };
        proof {
            assert forall|w: int| #[trigger] the_client(old(self).server, client_id@, w) implies w == m by {
                old(self).server.lemma_unique_client(w, m as int);
            }
        }
        let client_name = match &self.server.clients[m].data.participant {
            Some(p) => p.name.clone(),
            None => return out,
        };
        let i = match self.owned_channel(client_id, m) {
            Some(i) => i,
            None => return out,
        };
        proof {
            assert forall|j: int| is_owner(old(self).server, client_id@, m as int, j) implies j == i by {
                old(self).server.lemma_unique_channel(j, i as int);
            }
        }
        let chid = self.server.channels[i]._id.clone();
        let w = match self.find_user_in(target_user.as_str(), chid.as_str()) {
            Some(w) => w,
            None => return out,
        };
        let target_cid = self.server.clients[w].id.clone();
        let target_name = match &self.server.clients[w].data.participant {
            Some(p) => p.name.clone(),
            None => String::new(),
        };
        let expiry: u64 = if now > u64::MAX - duration {
            u64::MAX
        } else {
            now + duration
        };
        let ghost target_record = self.server.clients@[w as int];
        let self_ban = str_equal(self.server.clients[m].data.user_id.as_str(), target_user.as_str());
        self.record_ban(target_user.as_str(), chid.as_str(), expiry);
        let ghost after_ban = self.server.banned_users@;
        proof {
            reveal_strlit("test/awkward");
            reveal_strlit("test/");
            assert("test/awkward"@.take(5) =~= "test/"@);
            assert(is_special_id("test/awkward"@));
            assert(!is_special_id(chid@));
            if is_banned(after_ban, target_user@, "test/awkward"@, now) {
                assert("test/awkward"@ == chid@);
            }
        }
        self.join(target_cid.as_str(), w, "test/awkward", now, &mut out);
        assert(self.server.banned_users@ == after_ban);
        let ghost seated_now = self.server;
        let seconds = decimal(duration / 1000);
        let private = String::from_str("You have been banned from ").concat(chid.as_str()).concat(" for ").concat(
            seconds.as_str(),
        ).concat(" seconds.");
        proof {
            reveal_strlit("You have been banned from ");
            reveal_strlit(" for ");
            reveal_strlit(" seconds.");
            reveal_strlit("ban-");
            reveal_strlit("Let it be known that ");
            reveal_strlit(" kickbanned him/her self.");
            reveal_strlit(" banned ");
        }
        let mut frame: Vec<OutEvent> = Vec::new();
        frame.push(notification(Some(prefixed_time("ban-", now)), private, 5000));
        let ghost k_priv = out@.len();
        push_opt(&mut out, self.server.send_to_client(target_cid.as_str(), frame));
        let text = if self_ban {
            String::from_str("Let it be known that ").concat(client_name.as_str()).concat(
                " kickbanned him/her self.",
            )
        } else {
            client_name.concat(" banned ").concat(target_name.as_str()).concat(" for ").concat(
                seconds.as_str(),
            ).concat(" seconds.")
        };
        let mut notice: Vec<OutEvent> = Vec::new();
        notice.push(notification(Some(prefixed_time("ban-", now)), text, 5000));
        let ghost k_chan = out@.len();
        push_opt(&mut out, self.server.broadcast_to_channel(chid.as_str(), notice, None));
        proof {
            assert forall|mm: int, ii: int, ww: int|
                #[trigger] is_owner(old(self).server, client_id@, mm, ii) && 0 <= ww
                    < old(self).server.clients@.len()
                    && #[trigger] old(self).server.clients@[ww].data.user_id@ == target_user@
                    && opt_view(old(self).server.clients@[ww].data.channel_id) == Some(
                    old(self).server.channels@[ii]._id@,
                ) implies has_ban(
                self.server.banned_users@,
                target_user@,
                old(self).server.channels@[ii]._id@,
                ban_expiry(now, ms),
            ) by {
                assert(mm == m);
                assert(ii == i);
            }
            assert(old(self).server.clients@[w as int] == target_record);
            assert(seated(seated_now, target_record.id@, "test/awkward"@));
            assert forall|ww: int| #[trigger] is_first_member(old(self).server, target_user@, chid@, ww) implies ww == w by {
                if ww < w {
                } else if w < ww {
                }
            }
        }
        out
    }

    /// `unban`: the crown holder lifts the bans of a user.
    pub fn handle_unban(&mut self, client_id: &str, data: &MessageData, now: u64) -> (r: Vec<Outbound>)
        requires
            old(self).wf(),
        ensures
            final(self).wf(),
            final(self).server.channels == old(self).server.channels,
            final(self).server.clients == old(self).server.clients,
            final(self).server.subscribed_to_ls == old(self).server.subscribed_to_ls,
            final(self).server.ws_senders == old(self).server.ws_senders,
            r@.len() <= 1,
            data._id.is_none() ==> final(self).server == old(self).server && r@.len() == 0,
            forall|m: int|
                #[trigger] the_client(old(self).server, client_id@, m) && (forall|i: int|
                    !is_owner(old(self).server, client_id@, m, i)) ==> final(self).server == old(
                    self,
                ).server && r@.len() == 0,
            forall|m: int, i: int|
                #[trigger] is_owner(old(self).server, client_id@, m, i) && data._id.is_some() ==> {
                    &&& no_ban(final(self).server.banned_users@, data._id.unwrap()@)
                    &&& forall|u: Seq<char>, c: Seq<char>, t: u64|
                        u != data._id.unwrap()@ ==> (is_banned(final(self).server.banned_users@, u, c, t)
                            == is_banned(old(self).server.banned_users@, u, c, t))
                    &&& r@.len() == 1
                    &&& r@[0].frame@.len() == 1
                    &&& is_notice(
                        r@[0].frame@[0],
                        Some("unban-"@ + decimal_of(now as nat)),
                        "Unbanned user "@ + data._id.unwrap()@,
                        5000,
                    )
                    &&& ids_view(r@[0].recipients@) == deliverable(
                        participant_ids(old(self).server.channels@[i].participants@),
                        None,
                        old(self).server.ws_senders@,
                    )
                },
    {
        let mut out: Vec<Outbound> = Vec::new();
        let target_user = match &data._id {
            Some(t) => t,
            None => return out,
        };
        let m = match self.server.find_client(client_id) {
            Some(m) => m,
            None => return out,
        };
        proof {
            assert forall|w: int| #[trigger] the_client(old(self).server, client_id@, w) implies w == m by {
                old(self).server.lemma_unique_client(w, m as int);
            }
        }
        let i = match self.owned_channel(client_id, m) {
            Some(i) => i,
            None => return out,
        };
        proof {
            assert forall|mm: int, j: int| #[trigger] is_owner(old(self).server, client_id@, mm, j) implies mm == m by {
                old(self).server.lemma_unique_client(mm, m as int);
            }
        }
        let chid = self.server.channels[i]._id.clone();
        self.lift_bans(target_user.as_str());
        let text = String::from_str("Unbanned user ").concat(target_user.as_str());
        proof {
            reveal_strlit("Unbanned user ");
            reveal_strlit("unban-");
            assert forall|j: int| 0 <= j < self.server.channels@.len() && #[trigger] self.server.channels@[j]._id@ == chid@ implies j == i by {
                self.server.lemma_unique_channel(j, i as int);
            }
        }
        let mut frame: Vec<OutEvent> = Vec::new();
        frame.push(notification(Some(prefixed_time("unban-", now)), text, 5000));
        push_opt(&mut out, self.server.broadcast_to_channel(chid.as_str(), frame, None));
        out
    }

    /// `devices`: acknowledges the device list.
    pub fn handle_devices(&self, client_id: &str, data: &MessageData) -> (r: Vec<Outbound>)
        ensures
            data.list.is_none() ==> r@.len() == 0,
            data.list.is_some() ==> r@.len() == (if has_id(self.server.ws_senders@, client_id@) {
                1int
            } else {
                0
            }),
            r@.len() == 1 ==> ids_view(r@[0].recipients@) == seq![client_id@] && r@[0].frame@
                == seq![OutEvent::Devices { list: data.list.unwrap() }],
    {
        let mut out: Vec<Outbound> = Vec::new();
        match &data.list {
            Some(list) => {
                let mut frame: Vec<OutEvent> = Vec::new();
                frame.push(OutEvent::Devices { list: list.clone() });
                push_opt(&mut out, self.server.send_to_client(client_id, frame));
            },
            None => {},
        }
        out
    }

    /// `bye`: the client leaves as on disconnect.
    pub fn handle_bye(&mut self, client_id: &str, now: u64) -> (r: Vec<Outbound>)
        requires
            old(self).wf(),
        ensures
            final(self).wf(),
            gone(final(self).server, client_id@),
    {
        self.server.handle_disconnect(client_id, now)
    }

    /// Dispatches one event by its tag `m`; an unknown tag is ignored.
    pub fn handle_message(&mut self, client_id: &str, msg: &IncomingMessage, now: u64) -> (r: Vec<Outbound>)
        requires
            old(self).wf(),
        ensures
            final(self).wf(),
            tag_of(msg.m@) == Tag::Unknown ==> final(self).server == old(self).server && r@.len() == 0,
            tag_of(msg.m@) == Tag::MinusLs ==> minus_ls_result(old(self).server, final(self).server, client_id@),
            tag_of(msg.m@) == Tag::Time ==> final(self).server == old(self).server && time_reply(
                old(self).server,
                client_id@,
                msg.data,
                now,
                r@,
            ),
            tag_of(msg.m@) == Tag::Join ==> join_outcome(
                old(self).server,
                final(self).server,
                client_id@,
                msg.data,
                now,
                r@,
            ),
            tag_of(msg.m@) == Tag::Bye ==> gone(final(self).server, client_id@),
            tag_of(msg.m@) == Tag::Chat || tag_of(msg.m@) == Tag::Devices ==> final(self).server == old(
                self,
            ).server && r@.len() <= 1,
    {
        let data = &msg.data;
        let m = msg.m.as_str();
        proof {
            reveal_strlit("hi");
            reveal_strlit("bye");
            reveal_strlit("+ls");
            reveal_strlit("-ls");
            reveal_strlit("t");
            reveal_strlit("a");
            reveal_strlit("n");
            reveal_strlit("m");
            reveal_strlit("userset");
            reveal_strlit("ch");
            reveal_strlit("chset");
            reveal_strlit("chown");
            reveal_strlit("kickban");
            reveal_strlit("unban");
            reveal_strlit("devices");
        }
        if str_equal(m, "hi") {
            self.handle_hi(client_id, now)
        } else if str_equal(m, "bye") {
            self.handle_bye(client_id, now)
        } else if str_equal(m, "+ls") {
            self.handle_plus_ls(client_id)
        } else if str_equal(m, "-ls") {
            self.handle_minus_ls(client_id);
            Vec::new()
        } else if str_equal(m, "t") {
            self.handle_time(client_id, data, now)
        } else if str_equal(m, "a") {
            self.handle_chat(client_id, data, now)
        } else if str_equal(m, "n") {
            self.handle_note(client_id, data)
        } else if str_equal(m, "m") {
            self.handle_movement(client_id, data, now)
        } else if str_equal(m, "userset") {
            self.handle_userset(client_id, data)
        } else if str_equal(m, "ch") {
            self.handle_channel(client_id, data, now)
        } else if str_equal(m, "chset") {
            self.handle_channel_settings(client_id, data)
        } else if str_equal(m, "chown") {
            self.handle_chown(client_id, data, now)
        } else if str_equal(m, "kickban") {
            self.handle_kickban(client_id, data, now)
        } else if str_equal(m, "unban") {
            self.handle_unban(client_id, data, now)
        } else if str_equal(m, "devices") {
            self.handle_devices(client_id, data)
        } else {
            Vec::new()
        }
    }
}

/// The event kinds that the server handles.
#[derive(PartialEq, Eq, Structural)]
pub enum Tag {
    Hi,
    Bye,
    PlusLs,
    MinusLs,
    Time,
    Chat,
    Note,
    Move,
    UserSet,
    Join,
    ChannelSet,
    ChannelOwner,
    KickBan,
    Unban,
    Devices,
    Unknown,
}

/// The kind of event that tag `m` names.
pub open spec fn tag_of(m: Seq<char>) -> Tag {
    if m == "hi"@ {
        Tag::Hi
    } else if m == "bye"@ {
        Tag::Bye
    } else if m == "+ls"@ {
        Tag::PlusLs
    } else if m == "-ls"@ {
        Tag::MinusLs
    } else if m == "t"@ {
        Tag::Time
    } else if m == "a"@ {
        Tag::Chat
    } else if m == "n"@ {
        Tag::Note
    } else if m == "m"@ {
        Tag::Move
    } else if m == "userset"@ {
        Tag::UserSet
    } else if m == "ch"@ {
        Tag::Join
    } else if m == "chset"@ {
        Tag::ChannelSet
    } else if m == "chown"@ {
        Tag::ChannelOwner
    } else if m == "kickban"@ {
        Tag::KickBan
    } else if m == "unban"@ {
        Tag::Unban
    } else if m == "devices"@ {
        Tag::Devices
    } else {
        Tag::Unknown
    }
}

} // verus!
