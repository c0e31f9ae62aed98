use vstd::prelude::*;
use crate::events::{ChannelSummary, OutEvent, Outbound, ids_view};
use crate::quota::NoteQuota;
use crate::text::{is_special, is_special_id, str_equal};
use crate::types::{
    BanInfo, Channel, ChannelSettings, ClientData, Crown, Participant, Position, copy_opt_crown,
    opt_view,
};

verus! {

broadcast use vstd::seq_lib::group_seq_properties;

/// A registered client under its connection id.
#[derive(Clone, Debug)]
pub struct ClientEntry {
    pub id: String,
    pub data: ClientData,
}

impl ClientEntry {
    pub fn clone_entry(&self) -> (r: ClientEntry)
        ensures
            r.id == self.id,
            r.data.user_id == self.data.user_id,
            r.data.participant == self.data.participant,
            r.data.channel_id == self.data.channel_id,
            r.data.last_move_time == self.data.last_move_time,
            r.data.note_quota.same_as(self.data.note_quota),
    {
        ClientEntry { id: self.id.clone(), data: self.data.duplicate() }
    }
}

/// A new client record for connection `cid`: its own user id, no participant,
/// no channel, no move yet, and a new quota.
pub open spec fn is_fresh_client(e: ClientEntry, cid: Seq<char>) -> bool {
    &&& e.id@ == cid
    &&& e.data.user_id@ == cid
    &&& e.data.participant.is_none()
    &&& e.data.channel_id.is_none()
    &&& e.data.last_move_time.is_none()
    &&& e.data.note_quota.is_initial()
}

/// A ban under the banned user's id.
#[derive(Clone, Debug)]
pub struct BanEntry {
    pub user_id: String,
    pub info: BanInfo,
}

/// The registry of one server process: channels, clients, directory
/// subscribers, bans and the connections that have a live outbound sink.
#[derive(Clone, Debug)]
pub struct Server {
    pub channels: Vec<Channel>,
    pub clients: Vec<ClientEntry>,
    pub subscribed_to_ls: Vec<String>,
    pub banned_users: Vec<BanEntry>,
    pub ws_senders: Vec<String>,
}

pub open spec fn has_id(v: Seq<String>, id: Seq<char>) -> bool {
    exists|k: int| 0 <= k < v.len() && #[trigger] v[k]@ == id
}

pub open spec fn has_participant(ps: Seq<Participant>, id: Seq<char>) -> bool {
    exists|k: int| 0 <= k < ps.len() && #[trigger] ps[k].id@ == id
}

pub open spec fn participant_ids(ps: Seq<Participant>) -> Seq<Seq<char>> {
    ps.map_values(|p: Participant| p.id@)
}

/// The ids among `ids`, in their order, other than `exclude` and with a live sink.
pub open spec fn deliverable(
    ids: Seq<Seq<char>>,
    exclude: Option<Seq<char>>,
    live: Seq<String>,
) -> Seq<Seq<char>> {
    ids.filter(|s: Seq<char>| exclude != Some(s) && has_id(live, s))
}

/// Whether a client with id `id` is registered and has joined channel `ch`.
pub open spec fn joined(clients: Seq<ClientEntry>, id: Seq<char>, ch: Seq<char>) -> bool {
    exists|m: int|
        0 <= m < clients.len() && #[trigger] clients[m].id@ == id && opt_view(
            clients[m].data.channel_id,
        ) == Some(ch)
}

pub open spec fn has_client(clients: Seq<ClientEntry>, id: Seq<char>) -> bool {
    exists|m: int| 0 <= m < clients.len() && #[trigger] clients[m].id@ == id
}

pub open spec fn has_channel(channels: Seq<Channel>, id: Seq<char>) -> bool {
    exists|i: int| 0 <= i < channels.len() && #[trigger] channels[i]._id@ == id
}

pub open spec fn crown_holder(crown: Option<Crown>) -> Option<Seq<char>> {
    match crown {
        Some(c) => opt_view(c.participant_id),
        None => None,
    }
}

impl Channel {
    /// Special channels have no crown, all others have one, and a held crown is
    /// held by a member.
    pub open spec fn crown_ok(&self) -> bool {
        &&& (is_special_id(self._id@) <==> self.crown.is_none())
        &&& match crown_holder(self.crown) {
            Some(h) => has_participant(self.participants@, h),
            None => true,
        }
    }
}

impl Server {
    pub open spec fn wf(&self) -> bool {
        &&& forall|i: int, j: int|
            0 <= i < j < self.channels@.len() ==> self.channels@[i]._id@
                != self.channels@[j]._id@
        &&& forall|i: int, j: int|
            0 <= i < j < self.clients@.len() ==> self.clients@[i].id@ != self.clients@[j].id@
        &&& forall|i: int| 0 <= i < self.channels@.len() ==> (#[trigger] self.channels@[i]).crown_ok()
        &&& forall|m: int|
            0 <= m < self.clients@.len() ==> (#[trigger] self.clients@[m]).data.note_quota.wf()
        &&& forall|i: int, k: int|
            0 <= i < self.channels@.len() && 0 <= k < self.channels@[i].participants@.len()
                ==> joined(
                self.clients@,
                #[trigger] self.channels@[i].participants@[k].id@,
                self.channels@[i]._id@,
            )
    }

    pub fn new() -> (r: Server)
        ensures
            r.wf(),
            r.channels@.len() == 0,
            r.clients@.len() == 0,
            r.subscribed_to_ls@.len() == 0,
            r.banned_users@.len() == 0,
            r.ws_senders@.len() == 0,
    {
        Server {
            channels: Vec::new(),
            clients: Vec::new(),
            subscribed_to_ls: Vec::new(),
            banned_users: Vec::new(),
            ws_senders: Vec::new(),
        }
    }

    pub fn find_channel(&self, id: &str) -> (r: Option<usize>)
        ensures
            match r {
                Some(i) => i < self.channels@.len() && self.channels@[i as int]._id@ == id@,
                None => !has_channel(self.channels@, id@),
            },
    {
        let mut i: usize = 0;
        while i < self.channels.len()
            invariant
                i <= self.channels@.len(),
                forall|j: int| 0 <= j < i ==> self.channels@[j]._id@ != id@,
            decreases self.channels@.len() - i,
        {
            if str_equal(self.channels[i]._id.as_str(), id) {
                return Some(i);
            }
            i = i + 1;
        }
        None
    }

    pub fn find_client(&self, id: &str) -> (r: Option<usize>)
        ensures
            match r {
                Some(m) => m < self.clients@.len() && self.clients@[m as int].id@ == id@,
                None => !has_client(self.clients@, id@),
            },
    {
        let mut i: usize = 0;
        while i < self.clients.len()
            invariant
                i <= self.clients@.len(),
                forall|j: int| 0 <= j < i ==> self.clients@[j].id@ != id@,
            decreases self.clients@.len() - i,
        {
            if str_equal(self.clients[i].id.as_str(), id) {
                return Some(i);
            }
            i = i + 1;
        }
        None
    }
}

pub fn contains_id(v: &Vec<String>, id: &str) -> (r: bool)
    ensures
        r == has_id(v@, id@),
{
    let mut i: usize = 0;
    while i < v.len()
        invariant
            i <= v@.len(),
            forall|j: int| 0 <= j < i ==> v@[j]@ != id@,
        decreases v@.len() - i,
    {
        if str_equal(v[i].as_str(), id) {
            return true;
        }
        i = i + 1;
    }
    false
}

/// Removes every occurrence of `id`, keeping the others in order.
pub fn remove_id(v: &mut Vec<String>, id: &str)
    ensures
        !has_id(final(v)@, id@),
        forall|s: Seq<char>| s != id@ ==> has_id(final(v)@, s) == has_id(old(v)@, s),
{
    let ghost pred = |s: Seq<char>| s != id@;
    let ghost ov = ids_view(v@);
    let mut r: Vec<String> = Vec::new();
    let mut i: usize = 0;
    while i < v.len()
        invariant
            i <= v@.len(),
            ov == ids_view(v@),
            pred == (|s: Seq<char>| s != id@),
            ids_view(r@) == ov.take(i as int).filter(pred),
        decreases v@.len() - i,
    {
        let ghost before = r@;
        proof {
            reveal(Seq::filter);
        }
        assert(ov.take(i as int + 1).drop_last() =~= ov.take(i as int));
        assert(ov.take(i as int + 1).last() == v@[i as int]@);
        if !str_equal(v[i].as_str(), id) {
            r.push(v[i].clone());
            assert(pred(v@[i as int]@));
            assert(ov.take(i as int + 1).filter(pred) == ov.take(i as int).filter(pred).push(
                v@[i as int]@,
            ));
            assert(ids_view(r@) =~= ids_view(before).push(v@[i as int]@));
        } else {
            assert(!pred(v@[i as int]@));
            assert(ov.take(i as int + 1).filter(pred) == ov.take(i as int).filter(pred));
        }
        i = i + 1;
    }
    assert(ov.take(v@.len() as int) =~= ov);
    let ghost fv = ids_view(r@);
    proof {
        assert forall|k: int| 0 <= k < r@.len() implies r@[k]@ != id@ by {
            assert(fv[k] == r@[k]@);
            assert(pred(ov.filter(pred)[k]));
        }
        assert forall|s: Seq<char>| s != id@ implies has_id(r@, s) == has_id(v@, s) by {
            if has_id(r@, s) {
                let k = choose|k: int| 0 <= k < r@.len() && #[trigger] r@[k]@ == s;
                assert(fv[k] == s);
                assert(ov.filter(pred).contains(s));
                ov.lemma_filter_contains_rev(pred, s);
                assert(ov.contains(s));
                let j = choose|j: int| 0 <= j < ov.len() && ov[j] == s;
                assert(v@[j]@ == s);
            }
            if has_id(v@, s) {
                let j = choose|j: int| 0 <= j < v@.len() && #[trigger] v@[j]@ == s;
                assert(ov[j] == s);
                assert(ov.filter(pred).contains(s));
                let k = choose|k: int| 0 <= k < fv.len() && fv[k] == s;
                assert(r@[k]@ == s);
            }
        }
    }
    *v = r;
}

/// The directory entry of channel `c`; the crown of a lobby is not shown.
pub open spec fn summary(c: Channel) -> ChannelSummary {
    ChannelSummary {
        _id: c._id,
        count: c.participants@.len() as usize,
        crown: if c.settings.lobby {
            None
        } else {
            c.crown
        },
        settings: c.settings,
    }
}

/// A directory event listing exactly the channel `id`.
pub open spec fn is_ls_of(e: OutEvent, bulk: bool, id: Seq<char>) -> bool {
    match e {
        OutEvent::Ls { c, u } => c == bulk && u@.len() == 1 && u@[0]._id@ == id,
        _ => false,
    }
}

/// An unclaimed crown created at `now`, at the origin.
pub open spec fn is_fresh_crown(crown: Option<Crown>, now: u64) -> bool {
    match crown {
        Some(c) => c.participant_id.is_none() && c.user_id.is_none() && c.time == now
            && c.start_pos == (Position { x: 0, y: 0 }) && c.end_pos == (Position { x: 0, y: 0 }),
        None => false,
    }
}

pub open spec fn opt_str_view(o: Option<&str>) -> Option<Seq<char>> {
    match o {
        Some(s) => Some(s@),
        None => None,
    }
}

/// The ids of the participants, in order.
pub fn ids_of(ps: &Vec<Participant>) -> (r: Vec<String>)
    ensures
        ids_view(r@) == participant_ids(ps@),
{
    let mut r: Vec<String> = Vec::new();
    let mut i: usize = 0;
    while i < ps.len()
        invariant
            i <= ps@.len(),
            ids_view(r@) == participant_ids(ps@).take(i as int),
        decreases ps@.len() - i,
    {
        let ghost before = r@;
        r.push(ps[i].id.clone());
        assert(ids_view(r@) =~= ids_view(before).push(ps@[i as int].id@));
        assert(participant_ids(ps@).take(i as int + 1) =~= participant_ids(ps@).take(i as int).push(
            ps@[i as int].id@,
        ));
        i = i + 1;
    }
    assert(participant_ids(ps@).take(ps@.len() as int) =~= participant_ids(ps@));
    r
}

/// The participants other than `id`, in order.
pub open spec fn without(ps: Seq<Participant>, id: Seq<char>) -> Seq<Participant> {
    ps.filter(not_id(id))
}

pub open spec fn not_id(id: Seq<char>) -> spec_fn(Participant) -> bool {
    |p: Participant| p.id@ != id
}

pub proof fn lemma_without(ps: Seq<Participant>, id: Seq<char>)
    ensures
        !has_participant(without(ps, id), id),
        forall|k: int|
            0 <= k < without(ps, id).len() ==> ps.contains(#[trigger] without(ps, id)[k]),
        forall|q: Seq<char>| q != id ==> has_participant(without(ps, id), q) == has_participant(ps, q),
{
    let pred = not_id(id);
    let w = without(ps, id);
    assert forall|k: int| 0 <= k < w.len() implies w[k].id@ != id && ps.contains(w[k]) by {
        assert(pred(w[k]));
        assert(w.contains(w[k]));
        ps.lemma_filter_contains_rev(pred, w[k]);
    }
    assert forall|q: Seq<char>| q != id implies has_participant(w, q) == has_participant(ps, q) by {
        if has_participant(w, q) {
            let k = choose|k: int| 0 <= k < w.len() && #[trigger] w[k].id@ == q;
            assert(ps.contains(w[k]));
            let j = choose|j: int| 0 <= j < ps.len() && ps[j] == w[k];
            assert(ps[j].id@ == q);
        }
        if has_participant(ps, q) {
            let j = choose|j: int| 0 <= j < ps.len() && #[trigger] ps[j].id@ == q;
            assert(pred(ps[j]));
            assert(w.contains(ps[j]));
            let k = choose|k: int| 0 <= k < w.len() && w[k] == ps[j];
            assert(w[k].id@ == q);
        }
    }
}

/// Removes the participant `id`, keeping the others in order.
pub fn remove_participant(ps: &mut Vec<Participant>, id: &str)
    ensures
        final(ps)@ == without(old(ps)@, id@),
{
    let ghost pred = not_id(id@);
    let ghost ov = ps@;
    let mut r: Vec<Participant> = Vec::new();
    let mut i: usize = 0;
    while i < ps.len()
        invariant
            i <= ps@.len(),
            ov == ps@,
            pred == not_id(id@),
            r@ == ov.take(i as int).filter(pred),
        decreases ps@.len() - i,
    {
        proof {
            reveal(Seq::filter);
        }
        assert(ov.take(i as int + 1).drop_last() =~= ov.take(i as int));
        assert(ov.take(i as int + 1).last() == ps@[i as int]);
        if !str_equal(ps[i].id.as_str(), id) {
            assert(pred(ps@[i as int]));
            r.push(ps[i].duplicate());
        } else {
            assert(!pred(ps@[i as int]));
        }
        i = i + 1;
    }
    assert(ov.take(ov.len() as int) =~= ov);
    *ps = r;
}

impl Server {
    /// The connections among `ids`, in order, other than `exclude`, that have a live sink.
    pub fn deliverable_ids(&self, ids: &Vec<String>, exclude: Option<&str>) -> (r: Vec<String>)
        ensures
            ids_view(r@) == deliverable(ids_view(ids@), opt_str_view(exclude), self.ws_senders@),
    {
        let ghost pred = |s: Seq<char>| opt_str_view(exclude) != Some(s) && has_id(self.ws_senders@, s);
        let ghost ov = ids_view(ids@);
        let mut r: Vec<String> = Vec::new();
        let mut i: usize = 0;
        while i < ids.len()
            invariant
                i <= ids@.len(),
                ov == ids_view(ids@),
                pred == (|s: Seq<char>| opt_str_view(exclude) != Some(s) && has_id(self.ws_senders@, s)),
                ids_view(r@) == ov.take(i as int).filter(pred),
            decreases ids@.len() - i,
        {
            proof {
                reveal(Seq::filter);
            }
            let ghost before = r@;
            assert(ov.take(i as int + 1).drop_last() =~= ov.take(i as int));
            assert(ov.take(i as int + 1).last() == ids@[i as int]@);
            let excluded = match exclude {
                Some(e) => str_equal(ids[i].as_str(), e),
                None => false,
            };
            if !excluded && contains_id(&self.ws_senders, ids[i].as_str()) {
                assert(pred(ids@[i as int]@));
                r.push(ids[i].clone());
                assert(ids_view(r@) =~= ids_view(before).push(ids@[i as int]@));
            } else {
                assert(!pred(ids@[i as int]@));
            }
            i = i + 1;
        }
        assert(ov.take(ov.len() as int) =~= ov);
        r
    }

    /// A frame for one connection, if it has a live sink.
    pub fn send_to_client(&self, client_id: &str, frame: Vec<OutEvent>) -> (r: Option<Outbound>)
        ensures
            r.is_some() == has_id(self.ws_senders@, client_id@),
            r matches Some(o) ==> ids_view(o.recipients@) == seq![client_id@] && o.frame == frame,
    {
        if contains_id(&self.ws_senders, client_id) {
            let mut recipients: Vec<String> = Vec::new();
            recipients.push(String::from_str(client_id));
            assert(ids_view(recipients@) =~= seq![client_id@]);
            Some(Outbound { recipients, frame })
        } else {
            None
        }
    }

    /// One frame for every member of the channel but `exclude`; none if there is no
    /// such channel.
    pub fn broadcast_to_channel(
        &self,
        channel_id: &str,
        frame: Vec<OutEvent>,
        exclude: Option<&str>,
    ) -> (r: Option<Outbound>)
        ensures
            r.is_some() == has_channel(self.channels@, channel_id@),
            r matches Some(o) ==> o.frame == frame && exists|i: int|
                0 <= i < self.channels@.len() && #[trigger] self.channels@[i]._id@ == channel_id@
                    && ids_view(o.recipients@) == deliverable(
                    participant_ids(self.channels@[i].participants@),
                    opt_str_view(exclude),
                    self.ws_senders@,
                ),
    {
        match self.find_channel(channel_id) {
            Some(i) => {
                let ids = ids_of(&self.channels[i].participants);
                let recipients = self.deliverable_ids(&ids, exclude);
                Some(Outbound { recipients, frame })
            },
            None => None,
        }
    }

    pub fn summary_of(ch: &Channel) -> (r: ChannelSummary)
        ensures
            r == summary(*ch),
            r._id == ch._id,
            r.count == ch.participants@.len(),
            r.crown == (if ch.settings.lobby { None } else { ch.crown }),
            r.settings == ch.settings,
    {
        ChannelSummary {
            _id: ch._id.clone(),
            count: ch.participants.len(),
            crown: if ch.settings.lobby { None } else { copy_opt_crown(&ch.crown) },
            settings: ch.settings.duplicate(),
        }
    }

    /// A directory update on a visible channel, for every subscriber with a live sink.
    pub fn broadcast_ls_update(&self, channel_id: &str, is_bulk: bool) -> (r: Option<Outbound>)
        requires
            self.wf(),
        ensures
            r.is_some() == exists|i: int|
                0 <= i < self.channels@.len() && #[trigger] self.channels@[i]._id@ == channel_id@
                    && self.channels@[i].settings.visible,
            r matches Some(o) ==> ids_view(o.recipients@) == deliverable(
                ids_view(self.subscribed_to_ls@),
                None,
                self.ws_senders@,
            ) && o.frame@.len() == 1 && is_ls_of(o.frame@[0], is_bulk, channel_id@),
            r matches Some(o) ==> exists|i: int|
                0 <= i < self.channels@.len() && #[trigger] self.channels@[i]._id@ == channel_id@
                    && o.frame@[0] == (OutEvent::Ls { c: is_bulk, u: o.frame@[0]->Ls_u })
                    && (o.frame@[0]->Ls_u)@ == seq![summary(self.channels@[i])],
    {
        match self.find_channel(channel_id) {
            Some(i) => {
                if !self.channels[i].settings.visible {
                    return None;
                }
                let mut u: Vec<ChannelSummary> = Vec::new();
                u.push(Server::summary_of(&self.channels[i]));
                let mut frame: Vec<OutEvent> = Vec::new();
                frame.push(OutEvent::Ls { c: is_bulk, u });
                let recipients = self.deliverable_ids(&self.subscribed_to_ls, None);
                Some(Outbound { recipients, frame })
            },
            None => None,
        }
    }

    /// The settings and crown that a channel starts with.
    pub fn create_default_channel(&self, channel_id: &str, now: u64) -> (r: Channel)
        ensures
            r._id@ == channel_id@,
            r.crown_ok(),
            r.participants@.len() == 0,
            r.chat_history@.len() == 0,
            r.settings.lobby == is_special_id(channel_id@),
            r.settings.visible,
            is_special_id(channel_id@) ==> r.settings.chat == Some(true) && r.settings.color@
                == "#73b3cc"@ && opt_view(r.settings.color2) == Some("#273546"@),
            !is_special_id(channel_id@) ==> r.settings.chat.is_none() && r.settings.color@
                == "#ecfaed"@ && r.settings.color2.is_none() && is_fresh_crown(r.crown, now),
            r.settings.crownsolo.is_none(),
    {
        let special = is_special(channel_id);
        let settings = if special {
            ChannelSettings {
                color: String::from_str("#73b3cc"),
                color2: Some(String::from_str("#273546")),
                lobby: true,
                visible: true,
                chat: Some(true),
                crownsolo: None,
            }
        } else {
            ChannelSettings {
                color: String::from_str("#ecfaed"),
                color2: None,
                lobby: false,
                visible: true,
                chat: None,
                crownsolo: None,
            }
        };
        let crown = if special {
            None
        } else {
            Some(
                Crown {
                    participant_id: None,
                    user_id: None,
                    time: now,
                    start_pos: Position { x: 0, y: 0 },
                    end_pos: Position { x: 0, y: 0 },
                },
            )
        };
        Channel {
            _id: String::from_str(channel_id),
            settings,
            crown,
            participants: Vec::new(),
            chat_history: Vec::new(),
        }
    }

    /// Registers a new connection: a fresh client record if there is none under
    /// `client_id`, and a live outbound sink.
    pub fn handle_connection(&mut self, client_id: &str)
        requires
            old(self).wf(),
        ensures
            final(self).wf(),
            has_client(final(self).clients@, client_id@),
            has_id(final(self).ws_senders@, client_id@),
            final(self).channels == old(self).channels,
            final(self).subscribed_to_ls == old(self).subscribed_to_ls,
            final(self).banned_users == old(self).banned_users,
            forall|s: Seq<char>| #[trigger] has_client(old(self).clients@, s) ==> has_client(final(self).clients@, s),
            has_client(old(self).clients@, client_id@) ==> final(self).clients == old(self).clients,
            !has_client(old(self).clients@, client_id@) ==> final(self).clients@ == old(self).clients@.push(
                final(self).clients@.last(),
            ) && is_fresh_client(final(self).clients@.last(), client_id@),
            has_id(old(self).ws_senders@, client_id@) ==> final(self).ws_senders == old(self).ws_senders,
            !has_id(old(self).ws_senders@, client_id@) ==> final(self).ws_senders@ == old(self).ws_senders@.push(
                final(self).ws_senders@.last(),
            ) && final(self).ws_senders@.last()@ == client_id@,
    {
        if self.find_client(client_id).is_none() {
            let data = ClientData {
                user_id: String::from_str(client_id),
                participant: None,
                channel_id: None,
                last_move_time: None,
                note_quota: NoteQuota::new(),
            };
            let ghost before = self.clients@;
            self.clients.push(ClientEntry { id: String::from_str(client_id), data });
            proof {
                let n = before.len() as int;
                assert(self.clients@[n].id@ == client_id@);
                assert forall|i: int, k: int|
                    0 <= i < self.channels@.len() && 0 <= k
                        < self.channels@[i].participants@.len() implies joined(
                    self.clients@,
                    #[trigger] self.channels@[i].participants@[k].id@,
                    self.channels@[i]._id@,
                ) by {
                    let m = choose|m: int|
                        0 <= m < before.len() && #[trigger] before[m].id@
                            == self.channels@[i].participants@[k].id@ && opt_view(
                            before[m].data.channel_id,
                        ) == Some(self.channels@[i]._id@);
                    assert(self.clients@[m] == before[m]);
                }
                assert forall|s: Seq<char>| #[trigger] has_client(before, s) implies has_client(self.clients@, s) by {
                    let m = choose|m: int| 0 <= m < before.len() && #[trigger] before[m].id@ == s;
                    assert(self.clients@[m] == before[m]);
                }
            }
        }
        if !contains_id(&self.ws_senders, client_id) {
            self.ws_senders.push(String::from_str(client_id));
            assert(self.ws_senders@[self.ws_senders@.len() - 1]@ == client_id@);
        }
    }
}


/// Removing another client keeps a participant's membership.
pub proof fn lemma_remove_client_joined(
    clients: Seq<ClientEntry>,
    m: int,
    id: Seq<char>,
    ch: Seq<char>,
)
    requires
        0 <= m < clients.len(),
        clients[m].id@ != id,
        joined(clients, id, ch),
    ensures
        joined(clients.remove(m), id, ch),
{
    let w = choose|w: int|
        0 <= w < clients.len() && #[trigger] clients[w].id@ == id && opt_view(
            clients[w].data.channel_id,
        ) == Some(ch);
    let r = clients.remove(m);
    if w < m {
        assert(r[w] == clients[w]);
    } else {
        assert(r[w - 1] == clients[w]);
    }
}

pub proof fn lemma_remove_client_has(clients: Seq<ClientEntry>, m: int, id: Seq<char>)
    requires
        0 <= m < clients.len(),
        forall|i: int, j: int| 0 <= i < j < clients.len() ==> clients[i].id@ != clients[j].id@,
    ensures
        has_client(clients.remove(m), id) == (has_client(clients, id) && clients[m].id@ != id),
{
    let r = clients.remove(m);
    if has_client(r, id) {
        let w = choose|w: int| 0 <= w < r.len() && #[trigger] r[w].id@ == id;
        if w < m {
            assert(r[w] == clients[w]);
        } else {
            assert(r[w] == clients[w + 1]);
        }
    }
    if has_client(clients, id) && clients[m].id@ != id {
        let w = choose|w: int| 0 <= w < clients.len() && #[trigger] clients[w].id@ == id;
        if w < m {
            assert(r[w] == clients[w]);
        } else {
            assert(r[w - 1] == clients[w]);
        }
    }
}

/// The crown after its holder `cid` left: unheld and without a user, the rest kept.
pub open spec fn released(crown: Option<Crown>, cid: Seq<char>) -> Option<Crown> {
    match crown {
        Some(c) => if opt_view(c.participant_id) == Some(cid) {
            Some(
                Crown {
                    participant_id: None,
                    user_id: None,
                    time: c.time,
                    start_pos: c.start_pos,
                    end_pos: c.end_pos,
                },
            )
        } else {
            Some(c)
        },
        None => None,
    }
}

/// `after` is the crown `before` handed on at `now` to the first of `ps`, the
/// members left, when it is unheld and someone is left; otherwise it is `before`.
pub open spec fn handed_on(
    before: Option<Crown>,
    after: Option<Crown>,
    ps: Seq<Participant>,
    clients: Seq<ClientEntry>,
    now: u64,
) -> bool {
    match before {
        Some(c) => if c.participant_id.is_none() && ps.len() > 0 {
            &&& after matches Some(a)
            &&& a.participant_id == Some(ps[0].id)
            &&& a.time == now
            &&& a.start_pos == c.start_pos
            &&& a.end_pos == c.end_pos
            &&& a.user_id.is_some() == has_client(clients, ps[0].id@)
            &&& forall|w: int|
                0 <= w < clients.len() && #[trigger] clients[w].id@ == ps[0].id@ ==> a.user_id == Some(
                    clients[w].data.user_id,
                )
        } else {
            after == before
        },
        None => after.is_none(),
    }
}

/// What leaving channel `ch` does: the member `cid` is removed and the others
/// get one `bye`; an emptied ordinary channel is deleted and its directory entry
/// sent one last time; any other channel keeps its place and settings, and its
/// crown is released by `cid` and handed on. `chs` are the channels after, `sent`
/// the frames.
pub open spec fn leave_effect(
    before: Server,
    chs: Seq<Channel>,
    cid: Seq<char>,
    ch: Seq<char>,
    now: u64,
    sent: Seq<Outbound>,
) -> bool {
    if has_channel(before.channels@, ch) {
        forall|i: int|
            0 <= i < before.channels@.len() && #[trigger] before.channels@[i]._id@ == ch ==> {
                let c0 = before.channels@[i];
                let ps = without(c0.participants@, cid);
                &&& sent.len() >= 1
                &&& sent[0].frame@ == seq![OutEvent::Bye { p: sent[0].frame@[0]->Bye_p }]
                &&& (sent[0].frame@[0]->Bye_p)@ == cid
                &&& ids_view(sent[0].recipients@) == deliverable(
                    participant_ids(ps),
                    Some(cid),
                    before.ws_senders@,
                )
                &&& if ps.len() == 0 && !is_special_id(ch) {
                    &&& chs == before.channels@.remove(i)
                    &&& sent.len() == (if c0.settings.visible {
                        2int
                    } else {
                        1
                    })
                    &&& sent.len() == 2 ==> sent[1].frame@.len() == 1 && is_ls_of(
                        sent[1].frame@[0],
                        false,
                        ch,
                    ) && ids_view(sent[1].recipients@) == deliverable(
                        ids_view(before.subscribed_to_ls@),
                        None,
                        before.ws_senders@,
                    )
                } else {
                    &&& sent.len() == 1
                    &&& chs == before.channels@.update(i, chs[i])
                    &&& chs[i]._id == c0._id
                    &&& chs[i].settings == c0.settings
                    &&& chs[i].chat_history == c0.chat_history
                    &&& chs[i].participants@ == ps
                    &&& handed_on(released(c0.crown, cid), chs[i].crown, ps, before.clients@, now)
                }
            }
    } else {
        chs == before.channels@ && sent.len() == 0
    }
}

/// Clears the holder of the crown if it is `cid`; the crown itself stays.
pub fn drop_holder(crown: &mut Option<Crown>, cid: &str)
    ensures
        final(crown).is_some() == old(crown).is_some(),
        crown_holder(*final(crown)) == (if crown_holder(*old(crown)) == Some(cid@) {
            None
        } else {
            crown_holder(*old(crown))
        }),
        *final(crown) == released(*old(crown), cid@),
{
    match crown {
        Some(c) => {
            let held = match &c.participant_id {
                Some(h) => str_equal(h.as_str(), cid),
                None => false,
            };
            if held {
                c.participant_id = None;
                c.user_id = None;
            }
        },
        None => {},
    }
}

impl Server {
    pub fn user_id_of(&self, client_id: &str) -> (r: Option<String>)
        ensures
            r.is_some() == has_client(self.clients@, client_id@),
            r matches Some(u) ==> exists|m: int|
                0 <= m < self.clients@.len() && #[trigger] self.clients@[m].id@ == client_id@
                    && self.clients@[m].data.user_id == u,
    {
        match self.find_client(client_id) {
            Some(m) => Some(self.clients[m].data.user_id.clone()),
            None => None,
        }
    }

    /// Hands an unheld crown to the first remaining participant.
    pub fn reassign_crown(&self, ch: &mut Channel, now: u64)
        requires
            match crown_holder(old(ch).crown) {
                Some(h) => has_participant(old(ch).participants@, h),
                None => true,
            },
        ensures
            final(ch)._id == old(ch)._id,
            final(ch).settings == old(ch).settings,
            final(ch).participants == old(ch).participants,
            final(ch).chat_history == old(ch).chat_history,
            final(ch).crown.is_some() == old(ch).crown.is_some(),
            match crown_holder(final(ch).crown) {
                Some(h) => has_participant(final(ch).participants@, h),
                None => true,
            },
            crown_holder(old(ch).crown).is_some() ==> final(ch).crown == old(ch).crown,
            crown_holder(old(ch).crown).is_none() && old(ch).crown.is_some()
                && old(ch).participants@.len() > 0 ==> crown_holder(final(ch).crown) == Some(
                old(ch).participants@[0].id@,
            ),
            crown_holder(old(ch).crown).is_none() && old(ch).participants@.len() == 0
                ==> final(ch).crown == old(ch).crown,
            self.wf() ==> handed_on(old(ch).crown, final(ch).crown, old(ch).participants@, self.clients@, now),
    {
        if ch.participants.len() == 0 {
            return;
        }
        let first = ch.participants[0].id.clone();
        let user = self.user_id_of(first.as_str());
        match &mut ch.crown {
            Some(c) => {
                if c.participant_id.is_none() {
                    c.participant_id = Some(first);
                    c.user_id = user;
                    c.time = now;
                }
            },
            None => {},
        }
        assert(ch.participants@[0].id@ == old(ch).participants@[0].id@);
        proof {
            if self.wf() {
                assert forall|w: int|
                    0 <= w < self.clients@.len() && #[trigger] self.clients@[w].id@ == old(ch).participants@[0].id@
                        implies user == Some(self.clients@[w].data.user_id) by {
                    if user.is_some() {
                        let v = choose|v: int|
                            0 <= v < self.clients@.len() && #[trigger] self.clients@[v].id@ == first@
                                && self.clients@[v].data.user_id == user.unwrap();
                        self.lemma_unique_client(v, w);
                    }
                }
            }
        }
    }

    /// Takes a client out of its channel and out of the registry: the crown is
    /// released and handed on, the others are told, an emptied ordinary channel
    /// is deleted with a directory update, and the client leaves the directory
    /// subscribers and the clients.
    pub fn handle_disconnect(&mut self, client_id: &str, now: u64) -> (r: Vec<Outbound>)
        requires
            old(self).wf(),
        ensures
            final(self).wf(),
            !has_client(final(self).clients@, client_id@),
            !has_id(final(self).subscribed_to_ls@, client_id@),
            forall|i: int|
                0 <= i < final(self).channels@.len() ==> !has_participant(
                    #[trigger] final(self).channels@[i].participants@,
                    client_id@,
                ),
            forall|s: Seq<char>| s != client_id@ ==> has_client(final(self).clients@, s) == has_client(old(self).clients@, s),
            forall|s: Seq<char>| s != client_id@ ==> has_id(final(self).subscribed_to_ls@, s) == has_id(old(self).subscribed_to_ls@, s),
            final(self).ws_senders == old(self).ws_senders,
            final(self).banned_users == old(self).banned_users,
            !has_client(old(self).clients@, client_id@) ==> final(self).channels == old(self).channels
                && final(self).clients == old(self).clients && r@.len() == 0,
            forall|m: int|
                0 <= m < old(self).clients@.len() && #[trigger] old(self).clients@[m].id@ == client_id@
                    ==> final(self).clients@ == old(self).clients@.remove(m) && match opt_view(
                    old(self).clients@[m].data.channel_id,
                ) {
                    Some(ch) => leave_effect(
                        *old(self),
                        final(self).channels@,
                        client_id@,
                        ch,
                        now,
                        r@,
                    ),
                    None => final(self).channels == old(self).channels && r@.len() == 0,
                },
    {
        let mut out: Vec<Outbound> = Vec::new();
        match self.find_client(client_id) {
            Some(m) => {
                let chid = match &self.clients[m].data.channel_id {
                    Some(c) => Some(c.clone()),
                    None => None,
                };
                match chid {
                    Some(chid) => {
                        self.leave_channel(client_id, m, chid.as_str(), now, &mut out);
                    },
                    None => {
                        proof {
                            self.lemma_not_member(client_id@, m as int);
                        }
                    },
                }
                let ghost before = self.clients@;
                self.clients.remove(m);
                proof {
                    assert forall|w: int|
                        0 <= w < old(self).clients@.len() && #[trigger] old(self).clients@[w].id@ == client_id@
                            implies w == m by {
                        old(self).lemma_unique_client(w, m as int);
                    }
                    assert forall|s: Seq<char>| s != client_id@ implies has_client(self.clients@, s) == has_client(before, s) by {
                        lemma_remove_client_has(before, m as int, s);
                    }
                    lemma_remove_client_has(before, m as int, client_id@);
                    assert forall|i: int, k: int|
                        0 <= i < self.channels@.len() && 0 <= k
                            < self.channels@[i].participants@.len() implies joined(
                        self.clients@,
                        #[trigger] self.channels@[i].participants@[k].id@,
                        self.channels@[i]._id@,
                    ) by {
                        assert(has_participant(self.channels@[i].participants@, self.channels@[i].participants@[k].id@));
                        lemma_remove_client_joined(
                            before,
                            m as int,
                            self.channels@[i].participants@[k].id@,
                            self.channels@[i]._id@,
                        );
                    }
                    assert forall|a: int, b: int|
                        0 <= a < b < self.clients@.len() implies self.clients@[a].id@
                        != self.clients@[b].id@ by {
                        let a0 = if a < m { a } else { a + 1 };
                        let b0 = if b < m { b } else { b + 1 };
                        assert(self.clients@[a] == before[a0]);
                        assert(self.clients@[b] == before[b0]);
                    }
                    assert forall|w: int| 0 <= w < self.clients@.len() implies (
                    #[trigger] self.clients@[w]).data.note_quota.wf() by {
                        let w0 = if w < m { w } else { w + 1 };
                        assert(self.clients@[w] == before[w0]);
                    }
                }
            },
            None => {
                proof {
                    assert forall|i: int|
                        0 <= i < self.channels@.len() implies !has_participant(
                        #[trigger] self.channels@[i].participants@,
                        client_id@,
                    ) by {
                        if has_participant(self.channels@[i].participants@, client_id@) {
                            let k = choose|k: int|
                                0 <= k < self.channels@[i].participants@.len()
                                    && #[trigger] self.channels@[i].participants@[k].id@ == client_id@;
                            assert(joined(self.clients@, self.channels@[i].participants@[k].id@, self.channels@[i]._id@));
                        }
                    }
                }
            },
        }
        remove_id(&mut self.subscribed_to_ls, client_id);
        out
    }

    /// With the client at `m` in no channel, no channel lists it.
    pub proof fn lemma_not_member(&self, cid: Seq<char>, m: int)
        requires
            self.wf(),
            0 <= m < self.clients@.len(),
            self.clients@[m].id@ == cid,
            self.clients@[m].data.channel_id.is_none() || !has_channel(
                self.channels@,
                self.clients@[m].data.channel_id.unwrap()@,
            ),
        ensures
            forall|i: int|
                0 <= i < self.channels@.len() ==> !has_participant(
                    #[trigger] self.channels@[i].participants@,
                    cid,
                ),
    {
        assert forall|i: int|
            0 <= i < self.channels@.len() implies !has_participant(
            #[trigger] self.channels@[i].participants@,
            cid,
        ) by {
            if has_participant(self.channels@[i].participants@, cid) {
                let k = choose|k: int|
                    0 <= k < self.channels@[i].participants@.len()
                        && #[trigger] self.channels@[i].participants@[k].id@ == cid;
                assert(joined(self.clients@, self.channels@[i].participants@[k].id@, self.channels@[i]._id@));
                let w = choose|w: int|
                    0 <= w < self.clients@.len() && #[trigger] self.clients@[w].id@ == cid && opt_view(
                        self.clients@[w].data.channel_id,
                    ) == Some(self.channels@[i]._id@);
                assert(w == m);
            }
        }
    }

    /// Removes the client at `m`, recorded in channel `chid`, from that channel,
    /// with the crown handover, the `bye` to the others, and the deletion of an
    /// emptied ordinary channel.
    fn leave_channel(&mut self, client_id: &str, m: usize, chid: &str, now: u64, out: &mut Vec<Outbound>)
        requires
            old(self).wf(),
            m < old(self).clients@.len(),
            old(self).clients@[m as int].id@ == client_id@,
            opt_view(old(self).clients@[m as int].data.channel_id) == Some(chid@),
            old(out)@.len() == 0,
        ensures
            leave_effect(*old(self), final(self).channels@, client_id@, chid@, now, final(out)@),
            final(self).wf(),
            final(self).clients == old(self).clients,
            final(self).subscribed_to_ls == old(self).subscribed_to_ls,
            final(self).ws_senders == old(self).ws_senders,
            final(self).banned_users == old(self).banned_users,
            forall|i: int|
                0 <= i < final(self).channels@.len() ==> !has_participant(
                    #[trigger] final(self).channels@[i].participants@,
                    client_id@,
                ),
            forall|i: int, k: int|
                0 <= i < final(self).channels@.len() && 0 <= k
                    < final(self).channels@[i].participants@.len() ==> joined(
                    old(self).clients@.remove(m as int),
                    #[trigger] final(self).channels@[i].participants@[k].id@,
                    final(self).channels@[i]._id@,
                ),
    {
        match self.find_channel(chid) {
            Some(i) => {
                proof {
                    self.lemma_only_member_channel(client_id@, m as int, i as int);
                }
                let ghost old_chs = self.channels@;
                let ghost s0 = *self;
                let mut ch = self.channels.remove(i);
                remove_participant(&mut ch.participants, client_id);
                proof {
                    lemma_without(old_chs[i as int].participants@, client_id@);
                }
                drop_holder(&mut ch.crown, client_id);
                self.reassign_crown(&mut ch, now);
                self.channels.insert(i, ch);
                assert(self.channels@ =~= old_chs.update(i as int, self.channels@[i as int]));
                proof {
                    self.lemma_after_leave(old(self), client_id@, m as int, i as int);
                }
                let ghost s1 = *self;
                let mut bye: Vec<OutEvent> = Vec::new();
                bye.push(OutEvent::Bye { p: String::from_str(client_id) });
                match self.broadcast_to_channel(chid, bye, Some(client_id)) {
                    Some(o) => out.push(o),
                    None => {},
                }
                proof {
                    assert forall|j: int| 0 <= j < s1.channels@.len() && #[trigger] s1.channels@[j]._id@ == chid@ implies j == i by {
                        s1.lemma_unique_channel(j, i as int);
                    }
                    assert forall|j: int| 0 <= j < s0.channels@.len() && #[trigger] s0.channels@[j]._id@ == chid@ implies j == i by {
                        s0.lemma_unique_channel(j, i as int);
                    }
                }
                if self.channels[i].participants.len() == 0 && !is_special(chid) {
                    match self.broadcast_ls_update(chid, false) {
                        Some(o) => out.push(o),
                        None => {},
                    }
                    let ghost before = self.channels@;
                    self.channels.remove(i);
                    proof {
                        assert forall|a: int, b: int|
                            0 <= a < b < self.channels@.len() implies self.channels@[a]._id@
                            != self.channels@[b]._id@ by {
                            let a0 = if a < i { a } else { a + 1 };
                            let b0 = if b < i { b } else { b + 1 };
                            assert(self.channels@[a] == before[a0]);
                            assert(self.channels@[b] == before[b0]);
                        }
                        assert forall|a: int| 0 <= a < self.channels@.len() implies (
                        #[trigger] self.channels@[a]).crown_ok() by {
                            let a0 = if a < i { a } else { a + 1 };
                            assert(self.channels@[a] == before[a0]);
                        }
                        assert forall|a: int, k: int|
                            0 <= a < self.channels@.len() && 0 <= k
                                < self.channels@[a].participants@.len() implies joined(
                            old(self).clients@.remove(m as int),
                            #[trigger] self.channels@[a].participants@[k].id@,
                            self.channels@[a]._id@,
                        ) by {
                            let a0 = if a < i { a } else { a + 1 };
                            assert(self.channels@[a] == before[a0]);
                        }
                        assert forall|a: int, k: int|
                            0 <= a < self.channels@.len() && 0 <= k
                                < self.channels@[a].participants@.len() implies joined(
                            self.clients@,
                            #[trigger] self.channels@[a].participants@[k].id@,
                            self.channels@[a]._id@,
                        ) by {
                            let a0 = if a < i { a } else { a + 1 };
                            assert(self.channels@[a] == before[a0]);
                        }
                        assert forall|a: int|
                            0 <= a < self.channels@.len() implies !has_participant(
                            #[trigger] self.channels@[a].participants@,
                            client_id@,
                        ) by {
                            let a0 = if a < i { a } else { a + 1 };
                            assert(self.channels@[a] == before[a0]);
                        }
                    }
                }
            },
            None => {
                proof {
                    self.lemma_not_member(client_id@, m as int);
                    assert forall|i: int, k: int|
                        0 <= i < self.channels@.len() && 0 <= k
                            < self.channels@[i].participants@.len() implies joined(
                        old(self).clients@.remove(m as int),
                        #[trigger] self.channels@[i].participants@[k].id@,
                        self.channels@[i]._id@,
                    ) by {
                        assert(has_participant(self.channels@[i].participants@, self.channels@[i].participants@[k].id@));
                        lemma_remove_client_joined(
                            self.clients@,
                            m as int,
                            self.channels@[i].participants@[k].id@,
                            self.channels@[i]._id@,
                        );
                    }
                }
            },
        }
    }

    /// A client appears only in the channel that its record names.
    pub proof fn lemma_only_member_channel(&self, cid: Seq<char>, m: int, i: int)
        requires
            self.wf(),
            0 <= m < self.clients@.len(),
            0 <= i < self.channels@.len(),
            self.clients@[m].id@ == cid,
            opt_view(self.clients@[m].data.channel_id) == Some(self.channels@[i]._id@),
        ensures
            forall|j: int|
                0 <= j < self.channels@.len() && j != i ==> !has_participant(
                    #[trigger] self.channels@[j].participants@,
                    cid,
                ),
    {
        assert forall|j: int|
            0 <= j < self.channels@.len() && j != i implies !has_participant(
            #[trigger] self.channels@[j].participants@,
            cid,
        ) by {
            if has_participant(self.channels@[j].participants@, cid) {
                let k = choose|k: int|
                    0 <= k < self.channels@[j].participants@.len()
                        && #[trigger] self.channels@[j].participants@[k].id@ == cid;
                assert(joined(self.clients@, self.channels@[j].participants@[k].id@, self.channels@[j]._id@));
                let w = choose|w: int|
                    0 <= w < self.clients@.len() && #[trigger] self.clients@[w].id@ == cid && opt_view(
                        self.clients@[w].data.channel_id,
                    ) == Some(self.channels@[j]._id@);
                assert(w == m);
                if i < j {
                    assert(self.channels@[i]._id@ != self.channels@[j]._id@);
                } else {
                    assert(self.channels@[j]._id@ != self.channels@[i]._id@);
                }
            }
        }
    }

    /// The registry after channel `i` lost client `cid` (at `m`) is well formed, and
    /// every member left is joined in the registry without `m`.
    pub proof fn lemma_after_leave(&self, prev: &Server, cid: Seq<char>, m: int, i: int)
        requires
            prev.wf(),
            0 <= m < prev.clients@.len(),
            0 <= i < prev.channels@.len(),
            prev.clients@[m].id@ == cid,
            opt_view(prev.clients@[m].data.channel_id) == Some(prev.channels@[i]._id@),
            forall|j: int|
                0 <= j < prev.channels@.len() && j != i ==> !has_participant(
                    #[trigger] prev.channels@[j].participants@,
                    cid,
                ),
            self.clients == prev.clients,
            self.channels@.len() == prev.channels@.len(),
            forall|j: int| 0 <= j < prev.channels@.len() && j != i ==> self.channels@[j] == prev.channels@[j],
            self.channels@[i]._id == prev.channels@[i]._id,
            self.channels@[i].participants@ == without(prev.channels@[i].participants@, cid),
            self.channels@[i].crown.is_some() == prev.channels@[i].crown.is_some(),
            match crown_holder(self.channels@[i].crown) {
                Some(h) => has_participant(self.channels@[i].participants@, h),
                None => true,
            },
        ensures
            self.wf(),
            forall|j: int|
                0 <= j < self.channels@.len() ==> !has_participant(
                    #[trigger] self.channels@[j].participants@,
                    cid,
                ),
            forall|j: int, k: int|
                0 <= j < self.channels@.len() && 0 <= k < self.channels@[j].participants@.len()
                    ==> joined(
                    prev.clients@.remove(m),
                    #[trigger] self.channels@[j].participants@[k].id@,
                    self.channels@[j]._id@,
                ),
    {
        lemma_without(prev.channels@[i].participants@, cid);
        assert forall|j: int|
            0 <= j < self.channels@.len() implies !has_participant(
            #[trigger] self.channels@[j].participants@,
            cid,
        ) by {
            if j != i {
                assert(self.channels@[j] == prev.channels@[j]);
            }
        }
        assert forall|a: int, b: int|
            0 <= a < b < self.channels@.len() implies self.channels@[a]._id@
            != self.channels@[b]._id@ by {
            assert(self.channels@[a]._id == prev.channels@[a]._id);
            assert(self.channels@[b]._id == prev.channels@[b]._id);
        }
        assert forall|a: int| 0 <= a < self.channels@.len() implies (
        #[trigger] self.channels@[a]).crown_ok() by {
            if a != i {
                assert(self.channels@[a] == prev.channels@[a]);
                assert(prev.channels@[a].crown_ok());
            } else {
                assert(prev.channels@[i].crown_ok());
            }
        }
        assert forall|j: int, k: int|
            0 <= j < self.channels@.len() && 0 <= k < self.channels@[j].participants@.len()
                implies joined(
            prev.clients@.remove(m),
            #[trigger] self.channels@[j].participants@[k].id@,
            self.channels@[j]._id@,
        ) && joined(
            self.clients@,
            self.channels@[j].participants@[k].id@,
            self.channels@[j]._id@,
        ) by {
            let p = self.channels@[j].participants@[k];
            if j != i {
                assert(self.channels@[j] == prev.channels@[j]);
                assert(joined(prev.clients@, p.id@, prev.channels@[j]._id@));
                assert(has_participant(prev.channels@[j].participants@, p.id@));
            } else {
                assert(prev.channels@[i].participants@.contains(p));
                let q = choose|q: int| 0 <= q < prev.channels@[i].participants@.len() && prev.channels@[i].participants@[q] == p;
                assert(joined(prev.clients@, prev.channels@[i].participants@[q].id@, prev.channels@[i]._id@));
                assert(has_participant(self.channels@[i].participants@, p.id@));
            }
            lemma_remove_client_joined(prev.clients@, m, p.id@, self.channels@[j]._id@);
        }
    }
}


/// The well-formedness conditions that concern channel `c` alone, given the clients.
pub open spec fn channel_ok(clients: Seq<ClientEntry>, c: Channel) -> bool {
    &&& c.crown_ok()
    &&& forall|k: int|
        0 <= k < c.participants@.len() ==> joined(clients, #[trigger] c.participants@[k].id@, c._id@)
}

/// The default participant of a client: named "Anonymous", colored after its user id.
pub open spec fn is_default_participant(p: Participant, cid: Seq<char>, user: Seq<char>) -> bool {
    &&& p.id@ == cid
    &&& p._id@ == user
    &&& p.name@ == "Anonymous"@
    &&& p.color@ == seq!['#'] + user.take(if user.len() < 6 { user.len() as int } else { 6 })
    &&& p.x == 0
    &&& p.y == 0
}

pub fn default_participant(cid: &str, user: &str) -> (r: Participant)
    ensures
        is_default_participant(r, cid@, user@),
{
    let n = user.unicode_len();
    let k: usize = if n < 6 { n } else { 6 };
    let head = user.substring_char(0, k);
    let hash = String::from_str("#");
    let color = hash.concat(head);
    let name = String::from_str("Anonymous");
    proof {
        reveal_strlit("#");
        reveal_strlit("Anonymous");
        assert(hash@ =~= seq!['#']);
        assert(user@.subrange(0, k as int) =~= user@.take(k as int));
        assert(color@ == seq!['#'] + user@.take(k as int));
    }
    let r = Participant {
        id: String::from_str(cid),
        _id: String::from_str(user),
        name,
        color,
        x: 0,
        y: 0,
    };
    assert(r.name@ == "Anonymous"@);
    r
}

impl Server {
    /// Replacing channel `i` by one that keeps its id and whose own conditions hold
    /// keeps the registry well formed.
    pub proof fn lemma_replace_channel(prev: &Server, next: &Server, i: int)
        requires
            prev.wf(),
            0 <= i < prev.channels@.len(),
            next.clients == prev.clients,
            next.channels@ == prev.channels@.update(i, next.channels@[i]),
            next.channels@[i]._id == prev.channels@[i]._id,
            channel_ok(next.clients@, next.channels@[i]),
        ensures
            next.wf(),
    {
        assert forall|a: int, b: int|
            0 <= a < b < next.channels@.len() implies next.channels@[a]._id@
            != next.channels@[b]._id@ by {
            assert(next.channels@[a]._id == prev.channels@[a]._id);
            assert(next.channels@[b]._id == prev.channels@[b]._id);
        }
        assert forall|a: int| 0 <= a < next.channels@.len() implies (
        #[trigger] next.channels@[a]).crown_ok() by {
            if a != i {
                assert(next.channels@[a] == prev.channels@[a]);
            }
        }
        assert forall|a: int, k: int|
            0 <= a < next.channels@.len() && 0 <= k < next.channels@[a].participants@.len()
                implies joined(
            next.clients@,
            #[trigger] next.channels@[a].participants@[k].id@,
            next.channels@[a]._id@,
        ) by {
            if a != i {
                assert(next.channels@[a] == prev.channels@[a]);
            }
        }
    }

    /// Replacing client `m` by one with the same id, channel and a sound quota keeps
    /// the registry well formed.
    pub proof fn lemma_replace_client(prev: &Server, next: &Server, m: int)
        requires
            prev.wf(),
            0 <= m < prev.clients@.len(),
            next.channels == prev.channels,
            next.clients@ == prev.clients@.update(m, next.clients@[m]),
            next.clients@[m].id == prev.clients@[m].id,
            next.clients@[m].data.channel_id == prev.clients@[m].data.channel_id,
            next.clients@[m].data.note_quota.wf(),
        ensures
            next.wf(),
    {
        assert forall|a: int, b: int|
            0 <= a < b < next.clients@.len() implies next.clients@[a].id@
            != next.clients@[b].id@ by {
            assert(next.clients@[a].id == prev.clients@[a].id);
            assert(next.clients@[b].id == prev.clients@[b].id);
        }
        assert forall|w: int| 0 <= w < next.clients@.len() implies (
        #[trigger] next.clients@[w]).data.note_quota.wf() by {
            if w != m {
                assert(next.clients@[w] == prev.clients@[w]);
            }
        }
        assert forall|a: int, k: int|
            0 <= a < next.channels@.len() && 0 <= k < next.channels@[a].participants@.len()
                implies joined(
            next.clients@,
            #[trigger] next.channels@[a].participants@[k].id@,
            next.channels@[a]._id@,
        ) by {
            let id = next.channels@[a].participants@[k].id@;
            let w = choose|w: int|
                0 <= w < prev.clients@.len() && #[trigger] prev.clients@[w].id@ == id && opt_view(
                    prev.clients@[w].data.channel_id,
                ) == Some(next.channels@[a]._id@);
            assert(next.clients@[w].id@ == id);
        }
    }

    /// Takes client `cid` out of channel `chid` without handing on the crown.
    pub(crate) fn step_out(&mut self, cid: &str, chid: &str)
        requires
            old(self).wf(),
        ensures
            final(self).wf(),
            final(self).clients == old(self).clients,
            final(self).subscribed_to_ls == old(self).subscribed_to_ls,
            final(self).ws_senders == old(self).ws_senders,
            final(self).banned_users == old(self).banned_users,
            final(self).channels@.len() == old(self).channels@.len(),
            forall|j: int|
                0 <= j < final(self).channels@.len() ==> (#[trigger] final(self).channels@[j])._id
                    == old(self).channels@[j]._id,
            forall|j: int|
                0 <= j < final(self).channels@.len() && final(self).channels@[j]._id@ != chid@
                    ==> #[trigger] final(self).channels@[j] == old(self).channels@[j],
            forall|j: int|
                0 <= j < final(self).channels@.len() && final(self).channels@[j]._id@ == chid@
                    ==> !has_participant(#[trigger] final(self).channels@[j].participants@, cid@),
            forall|j: int|
                0 <= j < final(self).channels@.len() && #[trigger] final(self).channels@[j]._id@ == chid@
                    ==> final(self).channels@[j].participants@ == without(
                    old(self).channels@[j].participants@,
                    cid@,
                ) && final(self).channels@[j].crown == released(old(self).channels@[j].crown, cid@)
                    && final(self).channels@[j].settings == old(self).channels@[j].settings
                    && final(self).channels@[j].chat_history == old(self).channels@[j].chat_history,
    {
        match self.find_channel(chid) {
            Some(i) => {
                let ghost prev = *self;
                let mut ch = self.channels.remove(i);
                remove_participant(&mut ch.participants, cid);
                proof {
                    lemma_without(prev.channels@[i as int].participants@, cid@);
                    assert(prev.channels@[i as int].crown_ok());
                }
                drop_holder(&mut ch.crown, cid);
                self.channels.insert(i, ch);
                proof {
                    assert forall|j: int| 0 <= j < prev.channels@.len() && #[trigger] prev.channels@[j]._id@ == chid@ implies j == i by {
                        prev.lemma_unique_channel(j, i as int);
                    }
                }
                assert(self.channels@ =~= prev.channels@.update(i as int, self.channels@[i as int]));
                proof {
                    let c = self.channels@[i as int];
                    assert forall|k: int| 0 <= k < c.participants@.len() implies joined(
                        self.clients@,
                        #[trigger] c.participants@[k].id@,
                        c._id@,
                    ) by {
                        let p = c.participants@[k];
                        assert(prev.channels@[i as int].participants@.contains(p));
                        let q = choose|q: int|
                            0 <= q < prev.channels@[i as int].participants@.len()
                                && prev.channels@[i as int].participants@[q] == p;
                        assert(joined(
                            prev.clients@,
                            prev.channels@[i as int].participants@[q].id@,
                            prev.channels@[i as int]._id@,
                        ));
                    }
                    Server::lemma_replace_channel(&prev, self, i as int);
                    assert forall|j: int|
                        0 <= j < self.channels@.len() && self.channels@[j]._id@ == chid@
                            implies !has_participant(#[trigger] self.channels@[j].participants@, cid@) by {
                        if j != i {
                            if j < i {
                                assert(prev.channels@[j]._id@ != prev.channels@[i as int]._id@);
                            } else {
                                assert(prev.channels@[i as int]._id@ != prev.channels@[j]._id@);
                            }
                        }
                    }
                }
            },
            None => {},
        }
    }

    /// Records `target` as the channel of client `m`, given that no channel but
    /// `target` lists it.
    pub(crate) fn set_channel_of(&mut self, m: usize, target: &str)
        requires
            old(self).wf(),
            m < old(self).clients@.len(),
            forall|j: int|
                0 <= j < old(self).channels@.len() && old(self).channels@[j]._id@ != target@
                    ==> !has_participant(
                    #[trigger] old(self).channels@[j].participants@,
                    old(self).clients@[m as int].id@,
                ),
        ensures
            final(self).wf(),
            final(self).channels == old(self).channels,
            final(self).subscribed_to_ls == old(self).subscribed_to_ls,
            final(self).ws_senders == old(self).ws_senders,
            final(self).banned_users == old(self).banned_users,
            final(self).clients@.len() == old(self).clients@.len(),
            final(self).clients@[m as int].id == old(self).clients@[m as int].id,
            final(self).clients@[m as int].data.user_id == old(self).clients@[m as int].data.user_id,
            final(self).clients@[m as int].data.participant == old(self).clients@[m as int].data.participant,
            opt_view(final(self).clients@[m as int].data.channel_id) == Some(target@),
            forall|w: int| 0 <= w < final(self).clients@.len() && w != m ==> #[trigger] final(self).clients@[w] == old(self).clients@[w],
    {
        let ghost prev = *self;
        let mut entry = self.clients.remove(m);
        entry.data.channel_id = Some(String::from_str(target));
        self.clients.insert(m, entry);
        assert(self.clients@ =~= prev.clients@.update(m as int, self.clients@[m as int]));
        proof {
            assert forall|a: int, b: int|
                0 <= a < b < self.clients@.len() implies self.clients@[a].id@
                != self.clients@[b].id@ by {
                assert(self.clients@[a].id == prev.clients@[a].id);
                assert(self.clients@[b].id == prev.clients@[b].id);
            }
            assert forall|w: int| 0 <= w < self.clients@.len() implies (
            #[trigger] self.clients@[w]).data.note_quota.wf() by {
                if w != m {
                    assert(self.clients@[w] == prev.clients@[w]);
                } else {
                    assert(prev.clients@[w].data.note_quota.wf());
                }
            }
            assert forall|a: int, k: int|
                0 <= a < self.channels@.len() && 0 <= k < self.channels@[a].participants@.len()
                    implies joined(
                self.clients@,
                #[trigger] self.channels@[a].participants@[k].id@,
                self.channels@[a]._id@,
            ) by {
                let id = self.channels@[a].participants@[k].id@;
                assert(joined(prev.clients@, id, prev.channels@[a]._id@));
                let w = choose|w: int|
                    0 <= w < prev.clients@.len() && #[trigger] prev.clients@[w].id@ == id && opt_view(
                        prev.clients@[w].data.channel_id,
                    ) == Some(prev.channels@[a]._id@);
                if w == m {
                    if self.channels@[a]._id@ != target@ {
                        assert(has_participant(self.channels@[a].participants@, id));
                    }
                    assert(self.clients@[m as int].id@ == id);
                } else {
                    assert(self.clients@[w] == prev.clients@[w]);
                }
            }
        }
    }

    /// Puts participant `p` of client `m` into channel `i`, replacing an earlier
    /// entry of the same id, and hands an unclaimed crown to it.
    pub(crate) fn seat(&mut self, m: usize, i: usize, p: Participant, now: u64)
        requires
            old(self).wf(),
            m < old(self).clients@.len(),
            i < old(self).channels@.len(),
            p.id@ == old(self).clients@[m as int].id@,
            opt_view(old(self).clients@[m as int].data.channel_id) == Some(
                old(self).channels@[i as int]._id@,
            ),
        ensures
            final(self).wf(),
            final(self).clients == old(self).clients,
            final(self).subscribed_to_ls == old(self).subscribed_to_ls,
            final(self).ws_senders == old(self).ws_senders,
            final(self).banned_users == old(self).banned_users,
            final(self).channels@.len() == old(self).channels@.len(),
            forall|j: int| 0 <= j < final(self).channels@.len() && j != i ==> #[trigger] final(self).channels@[j] == old(self).channels@[j],
            final(self).channels@[i as int]._id == old(self).channels@[i as int]._id,
            final(self).channels@[i as int].settings == old(self).channels@[i as int].settings,
            final(self).channels@[i as int].participants@ == without(
                old(self).channels@[i as int].participants@,
                p.id@,
            ).push(p),
            final(self).channels@[i as int].crown.is_some() == old(self).channels@[i as int].crown.is_some(),
            crown_holder(old(self).channels@[i as int].crown).is_some() ==> final(self).channels@[i as int].crown == old(self).channels@[i as int].crown,
            old(self).channels@[i as int].crown.is_some() && crown_holder(old(self).channels@[i as int].crown).is_none()
                ==> crown_holder(final(self).channels@[i as int].crown) == Some(p.id@)
                && final(self).channels@[i as int].crown.unwrap().user_id == Some(
                old(self).clients@[m as int].data.user_id,
            ),
            final(self).channels@[i as int].chat_history == old(self).channels@[i as int].chat_history,
    {
        let ghost prev = *self;
        let user = self.clients[m].data.user_id.clone();
        let pid = p.id.clone();
        let mut ch = self.channels.remove(i);
        remove_participant(&mut ch.participants, pid.as_str());
        ch.participants.push(p);
        match &mut ch.crown {
            Some(c) => {
                if c.participant_id.is_none() {
                    c.participant_id = Some(pid);
                    c.user_id = Some(user);
                    c.time = now;
                }
            },
            None => {},
        }
        self.channels.insert(i, ch);
        assert(self.channels@ =~= prev.channels@.update(i as int, self.channels@[i as int]));
        proof {
            let old_c = prev.channels@[i as int];
            let c = self.channels@[i as int];
            lemma_without(old_c.participants@, p.id@);
            let w = without(old_c.participants@, p.id@);
            assert(old_c.crown_ok());
            assert(c.participants@[w.len() as int] == p);
            assert(has_participant(c.participants@, p.id@));
            assert forall|q: Seq<char>| has_participant(old_c.participants@, q) implies has_participant(c.participants@, q) by {
                if q != p.id@ {
                    assert(has_participant(w, q));
                    let k = choose|k: int| 0 <= k < w.len() && #[trigger] w[k].id@ == q;
                    assert(c.participants@[k] == w[k]);
                }
            }
            assert forall|k: int| 0 <= k < c.participants@.len() implies joined(
                self.clients@,
                #[trigger] c.participants@[k].id@,
                c._id@,
            ) by {
                if k < w.len() {
                    let pk = c.participants@[k];
                    assert(pk == w[k]);
                    assert(old_c.participants@.contains(pk));
                    let q = choose|q: int| 0 <= q < old_c.participants@.len() && old_c.participants@[q] == pk;
                    assert(joined(prev.clients@, old_c.participants@[q].id@, old_c._id@));
                } else {
                    assert(self.clients@[m as int].id@ == p.id@);
                }
            }
            Server::lemma_replace_channel(&prev, self, i as int);
        }
    }
}


impl Server {
    /// A member of a channel is in the channel that its client record names.
    pub proof fn lemma_member_only_in(&self, cid: Seq<char>, m: int)
        requires
            self.wf(),
            0 <= m < self.clients@.len(),
            self.clients@[m].id@ == cid,
        ensures
            forall|j: int|
                0 <= j < self.channels@.len() && has_participant(
                    #[trigger] self.channels@[j].participants@,
                    cid,
                ) ==> opt_view(self.clients@[m].data.channel_id) == Some(self.channels@[j]._id@),
    {
        assert forall|j: int|
            0 <= j < self.channels@.len() && has_participant(
                #[trigger] self.channels@[j].participants@,
                cid,
            ) implies opt_view(self.clients@[m].data.channel_id) == Some(self.channels@[j]._id@) by {
            let k = choose|k: int|
                0 <= k < self.channels@[j].participants@.len()
                    && #[trigger] self.channels@[j].participants@[k].id@ == cid;
            assert(joined(self.clients@, self.channels@[j].participants@[k].id@, self.channels@[j]._id@));
            let w = choose|w: int|
                0 <= w < self.clients@.len() && #[trigger] self.clients@[w].id@ == cid && opt_view(
                    self.clients@[w].data.channel_id,
                ) == Some(self.channels@[j]._id@);
            if w != m {
                if w < m {
                    assert(self.clients@[w].id@ != self.clients@[m].id@);
                } else {
                    assert(self.clients@[m].id@ != self.clients@[w].id@);
                }
            }
        }
    }

    /// Adds a new channel under an id that no channel has.
    pub(crate) fn add_channel(&mut self, ch: Channel)
        requires
            old(self).wf(),
            !has_channel(old(self).channels@, ch._id@),
            ch.crown_ok(),
            ch.participants@.len() == 0,
        ensures
            final(self).wf(),
            final(self).channels@ == old(self).channels@.push(ch),
            final(self).clients == old(self).clients,
            final(self).subscribed_to_ls == old(self).subscribed_to_ls,
            final(self).ws_senders == old(self).ws_senders,
            final(self).banned_users == old(self).banned_users,
    {
        let ghost prev = *self;
        self.channels.push(ch);
        proof {
            let n = prev.channels@.len() as int;
            assert forall|a: int, b: int|
                0 <= a < b < self.channels@.len() implies self.channels@[a]._id@
                != self.channels@[b]._id@ by {
                if b == n {
                    assert(prev.channels@[a]._id@ == self.channels@[a]._id@);
                }
            }
            assert forall|a: int| 0 <= a < self.channels@.len() implies (
            #[trigger] self.channels@[a]).crown_ok() by {
                if a < n {
                    assert(self.channels@[a] == prev.channels@[a]);
                }
            }
            assert forall|a: int, k: int|
                0 <= a < self.channels@.len() && 0 <= k < self.channels@[a].participants@.len()
                    implies joined(
                self.clients@,
                #[trigger] self.channels@[a].participants@[k].id@,
                self.channels@[a]._id@,
            ) by {
                assert(self.channels@[a] == prev.channels@[a]);
            }
        }
    }

    /// Replaces the record of client `m` by `entry`, which keeps its id and channel.
    pub(crate) fn put_client(&mut self, m: usize, entry: ClientEntry)
        requires
            old(self).wf(),
            m < old(self).clients@.len(),
            entry.id == old(self).clients@[m as int].id,
            entry.data.channel_id == old(self).clients@[m as int].data.channel_id,
            entry.data.note_quota.wf(),
        ensures
            final(self).wf(),
            final(self).clients@ == old(self).clients@.update(m as int, entry),
            final(self).channels == old(self).channels,
            final(self).subscribed_to_ls == old(self).subscribed_to_ls,
            final(self).ws_senders == old(self).ws_senders,
            final(self).banned_users == old(self).banned_users,
    {
        let ghost prev = *self;
        self.clients.remove(m);
        self.clients.insert(m, entry);
        assert(self.clients@ =~= prev.clients@.update(m as int, entry));
        proof {
            Server::lemma_replace_client(&prev, self, m as int);
        }
    }

    /// Replaces the settings of channel `i`.
    pub(crate) fn put_settings(&mut self, i: usize, settings: ChannelSettings)
        requires
            old(self).wf(),
            i < old(self).channels@.len(),
        ensures
            final(self).wf(),
            final(self).channels@.len() == old(self).channels@.len(),
            forall|j: int| 0 <= j < final(self).channels@.len() && j != i ==> #[trigger] final(self).channels@[j] == old(self).channels@[j],
            final(self).channels@[i as int]._id == old(self).channels@[i as int]._id,
            final(self).channels@[i as int].crown == old(self).channels@[i as int].crown,
            final(self).channels@[i as int].participants == old(self).channels@[i as int].participants,
            final(self).channels@[i as int].settings == settings,
            final(self).clients == old(self).clients,
            final(self).subscribed_to_ls == old(self).subscribed_to_ls,
            final(self).ws_senders == old(self).ws_senders,
            final(self).banned_users == old(self).banned_users,
    {
        let ghost prev = *self;
        let mut ch = self.channels.remove(i);
        ch.settings = settings;
        self.channels.insert(i, ch);
        assert(self.channels@ =~= prev.channels@.update(i as int, self.channels@[i as int]));
        proof {
            assert(prev.channels@[i as int].crown_ok());
            let c = self.channels@[i as int];
            assert forall|k: int| 0 <= k < c.participants@.len() implies joined(
                self.clients@,
                #[trigger] c.participants@[k].id@,
                c._id@,
            ) by {
                assert(c.participants@[k] == prev.channels@[i as int].participants@[k]);
            }
            Server::lemma_replace_channel(&prev, self, i as int);
        }
    }

    /// Replaces the crown of channel `i` by one held by a member, or unheld.
    pub(crate) fn put_crown(&mut self, i: usize, crown: Crown)
        requires
            old(self).wf(),
            i < old(self).channels@.len(),
            old(self).channels@[i as int].crown.is_some(),
            match opt_view(crown.participant_id) {
                Some(h) => has_participant(old(self).channels@[i as int].participants@, h),
                None => true,
            },
        ensures
            final(self).wf(),
            final(self).channels@.len() == old(self).channels@.len(),
            forall|j: int| 0 <= j < final(self).channels@.len() && j != i ==> #[trigger] final(self).channels@[j] == old(self).channels@[j],
            final(self).channels@[i as int]._id == old(self).channels@[i as int]._id,
            final(self).channels@[i as int].settings == old(self).channels@[i as int].settings,
            final(self).channels@[i as int].participants == old(self).channels@[i as int].participants,
            final(self).channels@[i as int].crown == Some(crown),
            final(self).clients == old(self).clients,
            final(self).subscribed_to_ls == old(self).subscribed_to_ls,
            final(self).ws_senders == old(self).ws_senders,
            final(self).banned_users == old(self).banned_users,
    {
        let ghost prev = *self;
        let mut ch = self.channels.remove(i);
        ch.crown = Some(crown);
        self.channels.insert(i, ch);
        assert(self.channels@ =~= prev.channels@.update(i as int, self.channels@[i as int]));
        proof {
            assert(prev.channels@[i as int].crown_ok());
            let c = self.channels@[i as int];
            assert forall|k: int| 0 <= k < c.participants@.len() implies joined(
                self.clients@,
                #[trigger] c.participants@[k].id@,
                c._id@,
            ) by {
                assert(c.participants@[k] == prev.channels@[i as int].participants@[k]);
            }
            Server::lemma_replace_channel(&prev, self, i as int);
        }
    }

    /// Advances the note quota of every client by one tick.
    pub fn tick_all(&mut self)
        requires
            old(self).wf(),
        ensures
            final(self).wf(),
            final(self).channels == old(self).channels,
            final(self).clients@.len() == old(self).clients@.len(),
            forall|m: int|
                0 <= m < final(self).clients@.len() ==> (#[trigger] final(self).clients@[m]).id
                    == old(self).clients@[m].id && final(self).clients@[m].data.note_quota.points
                    == old(self).clients@[m].data.note_quota.refilled(),
            forall|m: int|
                0 <= m < final(self).clients@.len() ==> {
                    let q0 = old(self).clients@[m].data.note_quota;
                    let q1 = (#[trigger] final(self).clients@[m]).data.note_quota;
                    &&& q1.history@ == (seq![q0.points] + q0.history@).take(q0.max_hist_len as int)
                    &&& q1.allowance == q0.allowance && q1.max == q0.max && q1.max_hist_len == q0.max_hist_len
                },
    {
        let mut m: usize = 0;
        while m < self.clients.len()
            invariant
                self.wf(),
                m <= self.clients@.len(),
                self.channels == old(self).channels,
                self.clients@.len() == old(self).clients@.len(),
                forall|w: int|
                    0 <= w < self.clients@.len() ==> (#[trigger] self.clients@[w]).id
                        == old(self).clients@[w].id,
                forall|w: int|
                    m <= w < self.clients@.len() ==> #[trigger] self.clients@[w] == old(self).clients@[w],
                forall|w: int|
                    0 <= w < m ==> (#[trigger] self.clients@[w]).data.note_quota.points
                        == old(self).clients@[w].data.note_quota.refilled(),
                forall|w: int|
                    0 <= w < m ==> {
                        let q0 = old(self).clients@[w].data.note_quota;
                        let q1 = (#[trigger] self.clients@[w]).data.note_quota;
                        &&& q1.history@ == (seq![q0.points] + q0.history@).take(q0.max_hist_len as int)
                        &&& q1.allowance == q0.allowance && q1.max == q0.max && q1.max_hist_len
                            == q0.max_hist_len
                    },
            decreases self.clients@.len() - m,
        {
            let ghost prev = *self;
            let mut entry = self.clients.remove(m);
            assert(entry == prev.clients@[m as int]);
            entry.data.note_quota.tick();
            self.clients.insert(m, entry);
            assert(self.clients@ =~= prev.clients@.update(m as int, entry));
            proof {
                Server::lemma_replace_client(&prev, self, m as int);
            }
            m = m + 1;
        }
    }

    /// Disconnect followed by closing the outbound sink.
    pub fn close_connection(&mut self, client_id: &str, now: u64) -> (r: Vec<Outbound>)
        requires
            old(self).wf(),
        ensures
            final(self).wf(),
            disconnected(*final(self), client_id@),
            forall|s: Seq<char>| s != client_id@ ==> has_client(final(self).clients@, s) == has_client(old(self).clients@, s),
            forall|s: Seq<char>| s != client_id@ ==> has_id(final(self).ws_senders@, s) == has_id(old(self).ws_senders@, s),
    {
        let r = self.handle_disconnect(client_id, now);
        remove_id(&mut self.ws_senders, client_id);
        r
    }
}

/// No trace of connection `cid` is left: in no channel, not subscribed to the
/// directory, without an outbound sink and without a client record.
pub open spec fn disconnected(s: Server, cid: Seq<char>) -> bool {
    &&& forall|i: int|
        0 <= i < s.channels@.len() ==> !has_participant(#[trigger] s.channels@[i].participants@, cid)
    &&& !has_id(s.subscribed_to_ls@, cid)
    &&& !has_id(s.ws_senders@, cid)
    &&& !has_client(s.clients@, cid)
}


impl Server {
    /// Client ids are unique.
    pub proof fn lemma_unique_client(&self, m: int, w: int)
        requires
            self.wf(),
            0 <= m < self.clients@.len(),
            0 <= w < self.clients@.len(),
            self.clients@[m].id@ == self.clients@[w].id@,
        ensures
            m == w,
    {
        if m < w {
            assert(self.clients@[m].id@ != self.clients@[w].id@);
        } else if w < m {
            assert(self.clients@[w].id@ != self.clients@[m].id@);
        }
    }

    /// Channel ids are unique.
    pub proof fn lemma_unique_channel(&self, i: int, j: int)
        requires
            self.wf(),
            0 <= i < self.channels@.len(),
            0 <= j < self.channels@.len(),
            self.channels@[i]._id@ == self.channels@[j]._id@,
        ensures
            i == j,
    {
        if i < j {
            assert(self.channels@[i]._id@ != self.channels@[j]._id@);
        } else if j < i {
            assert(self.channels@[j]._id@ != self.channels@[i]._id@);
        }
    }
}


impl Server {
    /// Deletes channel `chid` when it is ordinary and has no member, with its
    /// last directory update.
    pub(crate) fn drop_if_empty(&mut self, chid: &str) -> (r: Option<Outbound>)
        requires
            old(self).wf(),
        ensures
            final(self).wf(),
            final(self).clients == old(self).clients,
            final(self).subscribed_to_ls == old(self).subscribed_to_ls,
            final(self).ws_senders == old(self).ws_senders,
            final(self).banned_users == old(self).banned_users,
            forall|i: int|
                0 <= i < old(self).channels@.len() && #[trigger] old(self).channels@[i]._id@ == chid@ ==> if old(
                    self,
                ).channels@[i].participants@.len() == 0 && !is_special_id(chid@) {
                    &&& final(self).channels@ == old(self).channels@.remove(i)
                    &&& r.is_some() == old(self).channels@[i].settings.visible
                    &&& r matches Some(o) ==> o.frame@.len() == 1 && is_ls_of(o.frame@[0], false, chid@)
                        && ids_view(o.recipients@) == deliverable(
                        ids_view(old(self).subscribed_to_ls@),
                        None,
                        old(self).ws_senders@,
                    )
                } else {
                    final(self).channels == old(self).channels && r.is_none()
                },
            !has_channel(old(self).channels@, chid@) ==> final(self).channels == old(self).channels
                && r.is_none(),
    {
        let i = match self.find_channel(chid) {
            Some(i) => i,
            None => return None,
        };
        proof {
            assert forall|j: int| 0 <= j < self.channels@.len() && #[trigger] self.channels@[j]._id@ == chid@ implies j == i by {
                self.lemma_unique_channel(j, i as int);
            }
        }
        if self.channels[i].participants.len() != 0 || is_special(chid) {
            return None;
        }
        let r = self.broadcast_ls_update(chid, false);
        let ghost before = self.channels@;
        let ghost prev = *self;
        self.channels.remove(i);
        proof {
            assert forall|a: int, b: int|
                0 <= a < b < self.channels@.len() implies self.channels@[a]._id@
                != self.channels@[b]._id@ by {
                let a0 = if a < i { a } else { a + 1 };
                let b0 = if b < i { b } else { b + 1 };
                assert(self.channels@[a] == before[a0]);
                assert(self.channels@[b] == before[b0]);
            }
            assert forall|a: int| 0 <= a < self.channels@.len() implies (
            #[trigger] self.channels@[a]).crown_ok() by {
                let a0 = if a < i { a } else { a + 1 };
                assert(self.channels@[a] == before[a0]);
            }
            assert forall|a: int, k: int|
                0 <= a < self.channels@.len() && 0 <= k
                    < self.channels@[a].participants@.len() implies joined(
                self.clients@,
                #[trigger] self.channels@[a].participants@[k].id@,
                self.channels@[a]._id@,
            ) by {
                let a0 = if a < i { a } else { a + 1 };
                assert(self.channels@[a] == before[a0]);
            }
        }
        r
    }
}

} // verus!
