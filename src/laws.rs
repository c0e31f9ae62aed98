use vstd::prelude::*;
use crate::handlers::minus_ls_result;
use crate::server::{Server, crown_holder, has_id, has_participant, joined};
use crate::text::is_special_id;

verus! {

/// Every member of every channel has a client record that names that channel.
pub proof fn law_members_are_joined(s: Server)
    requires
        s.wf(),
    ensures
        forall|i: int, k: int|
            0 <= i < s.channels@.len() && 0 <= k < s.channels@[i].participants@.len() ==> joined(
                s.clients@,
                #[trigger] s.channels@[i].participants@[k].id@,
                s.channels@[i]._id@,
            ),
{
}

/// An ordinary channel has a crown and a special channel has none.
pub proof fn law_crown_presence(s: Server)
    requires
        s.wf(),
    ensures
        forall|i: int|
            0 <= i < s.channels@.len() ==> (is_special_id((#[trigger] s.channels@[i])._id@)
                <==> s.channels@[i].crown.is_none()),
{
    assert forall|i: int| 0 <= i < s.channels@.len() implies (is_special_id(
        (#[trigger] s.channels@[i])._id@,
    ) <==> s.channels@[i].crown.is_none()) by {
        assert(s.channels@[i].crown_ok());
    }
}

/// A held crown is held by a member of its channel.
pub proof fn law_crown_holder_is_member(s: Server)
    requires
        s.wf(),
    ensures
        forall|i: int|
            0 <= i < s.channels@.len() && (#[trigger] crown_holder(s.channels@[i].crown)).is_some()
                ==> has_participant(s.channels@[i].participants@, crown_holder(s.channels@[i].crown).unwrap()),
{
    assert forall|i: int|
        0 <= i < s.channels@.len() && (#[trigger] crown_holder(s.channels@[i].crown)).is_some()
            implies has_participant(s.channels@[i].participants@, crown_holder(s.channels@[i].crown).unwrap()) by {
        assert(s.channels@[i].crown_ok());
    }
}

/// Every client's quota holds between zero and its maximum, with a full history.
pub proof fn law_quota_bounds(s: Server)
    requires
        s.wf(),
    ensures
        forall|m: int|
            0 <= m < s.clients@.len() ==> {
                let q = (#[trigger] s.clients@[m]).data.note_quota;
                0 <= q.points <= q.max && q.history@.len() == q.max_hist_len
            },
{
    assert forall|m: int| 0 <= m < s.clients@.len() implies {
        let q = (#[trigger] s.clients@[m]).data.note_quota;
        0 <= q.points <= q.max && q.history@.len() == q.max_hist_len
    } by {
        assert(s.clients@[m].data.note_quota.wf());
    }
}

/// A second `-ls` from the same connection changes nothing.
pub proof fn law_minus_ls_idempotent(s0: Server, s1: Server, s2: Server, cid: Seq<char>)
    requires
        minus_ls_result(s0, s1, cid),
        minus_ls_result(s1, s2, cid),
    ensures
        forall|x: Seq<char>| has_id(s2.subscribed_to_ls@, x) == has_id(s1.subscribed_to_ls@, x),
        s2.channels == s1.channels,
        s2.clients == s1.clients,
        s2.banned_users == s1.banned_users,
        s2.ws_senders == s1.ws_senders,
{
    assert forall|x: Seq<char>| has_id(s2.subscribed_to_ls@, x) == has_id(s1.subscribed_to_ls@, x) by {
        if x != cid {
        }
    }
}

} // verus!
