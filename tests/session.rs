use mpp_server::events::{OutEvent, Outbound};
use mpp_server::handlers::{IncomingMessage, MessageData, MessageHandler, SetFields};
use mpp_server::server::Server;

fn data() -> MessageData {
    MessageData {
        e: None,
        message: None,
        n: None,
        n_count: None,
        t: None,
        x: None,
        y: None,
        set: None,
        _id: None,
        id: None,
        ms: None,
        list: None,
    }
}

fn msg(m: &str, data: MessageData) -> IncomingMessage {
    IncomingMessage { m: m.to_string(), data }
}

fn join_data(ch: &str) -> MessageData {
    let mut d = data();
    d._id = Some(ch.to_string());
    d
}

fn handler_with(ids: &[&str]) -> MessageHandler {
    let mut server = Server::new();
    for id in ids {
        server.handle_connection(id);
    }
    let mut h = MessageHandler::new(server);
    for id in ids {
        h.handle_message(id, &msg("hi", data()), 1000);
    }
    h
}

fn channel<'a>(h: &'a MessageHandler, id: &str) -> Option<&'a mpp_server::types::Channel> {
    h.server.channels.iter().find(|c| c._id == id)
}

fn holder(h: &MessageHandler, id: &str) -> Option<String> {
    channel(h, id).and_then(|c| c.crown.as_ref()).and_then(|c| c.participant_id.clone())
}

fn sent_to<'a>(out: &'a [Outbound], id: &str) -> Vec<&'a Vec<OutEvent>> {
    out.iter().filter(|o| o.recipients.iter().any(|r| r == id)).map(|o| &o.frame).collect()
}

fn has_chat(out: &[Outbound]) -> bool {
    out.iter().any(|o| o.frame.iter().any(|e| matches!(e, OutEvent::A { .. })))
}

fn client<'a>(h: &'a MessageHandler, id: &str) -> &'a mpp_server::types::ClientData {
    &h.server.clients.iter().find(|c| c.id == id).unwrap().data
}

#[test]
fn crown_auto_assign_on_create() {
    let mut h = handler_with(&["c1"]);
    let out = h.handle_message("c1", &msg("ch", join_data("room1")), 2000);
    assert!(channel(&h, "room1").is_some());
    assert_eq!(holder(&h, "room1"), Some("c1".to_string()));
    let frames = sent_to(&out, "c1");
    let join = frames.iter().find(|f| matches!(f[0], OutEvent::Ch { .. })).unwrap();
    match &join[0] {
        OutEvent::Ch { ch, p, .. } => {
            assert_eq!(ch._id, "room1");
            assert_eq!(ch.crown.as_ref().unwrap().participant_id, Some("c1".to_string()));
            assert_eq!(p.as_deref(), Some("c1"));
        }
        _ => unreachable!(),
    }
    match &join[1] {
        OutEvent::C { c } => assert!(c.is_empty()),
        _ => panic!("second event is not the chat history"),
    }
}

#[test]
fn crown_transfer_then_chset() {
    let mut h = handler_with(&["c1", "c2", "c3"]);
    h.handle_message("c1", &msg("ch", join_data("room1")), 2000);
    h.handle_message("c2", &msg("ch", join_data("room1")), 2001);
    h.handle_message("c3", &msg("+ls", data()), 2002);
    let mut d = data();
    d.id = Some("c2".to_string());
    let out = h.handle_message("c1", &msg("chown", d), 2003);
    assert_eq!(holder(&h, "room1"), Some("c2".to_string()));
    let to_c2 = sent_to(&out, "c2");
    assert!(to_c2.iter().any(|f| matches!(&f[0], OutEvent::Ch { ch, .. }
        if ch.crown.as_ref().unwrap().participant_id.as_deref() == Some("c2"))));

    let mut hidden = data();
    hidden.set = Some(SetFields { name: None, color: None, visible: Some(false), chat: None, crownsolo: None });
    let out = h.handle_message("c1", &msg("chset", hidden.clone()), 2004);
    assert!(out.is_empty());
    assert!(channel(&h, "room1").unwrap().settings.visible);

    let out = h.handle_message("c2", &msg("chset", hidden), 2005);
    assert!(!channel(&h, "room1").unwrap().settings.visible);
    assert!(sent_to(&out, "c3").is_empty());
}

#[test]
fn note_quota_throttle() {
    let mut h = handler_with(&["c1", "c2"]);
    h.handle_message("c1", &msg("ch", join_data("room1")), 2000);
    h.handle_message("c2", &msg("ch", join_data("room1")), 2000);
    let mut d = data();
    d.n = Some("[]".to_string());
    d.n_count = Some(30000);
    for _ in 0..3 {
        let out = h.handle_message("c1", &msg("n", d.clone()), 2100);
        assert_eq!(out.len(), 1);
        assert_eq!(out[0].recipients, vec!["c1".to_string()]);
        match &out[0].frame[0] {
            OutEvent::Notification { text, class, duration, .. } => {
                assert_eq!(text, "You're playing too fast! Slow down.");
                assert_eq!(class, "short");
                assert_eq!(*duration, 2000);
            }
            _ => panic!("expected a notification"),
        }
        assert_eq!(client(&h, "c1").note_quota.points, 24000);
    }
}

#[test]
fn note_quota_refills_after_four_ticks() {
    let mut h = handler_with(&["c1"]);
    let mut d = data();
    d.n = Some("[]".to_string());
    d.n_count = Some(8000);
    for _ in 0..3 {
        h.handle_message("c1", &msg("n", d.clone()), 2100);
    }
    assert_eq!(client(&h, "c1").note_quota.points, 0);
    for _ in 0..4 {
        h.server.tick_all();
    }
    assert_eq!(client(&h, "c1").note_quota.points, 24000);
}

#[test]
fn crownsolo_gate() {
    let mut h = handler_with(&["c1", "c2", "c3"]);
    for c in ["c1", "c2", "c3"] {
        h.handle_message(c, &msg("ch", join_data("room1")), 2000);
    }
    let mut solo = data();
    solo.set = Some(SetFields { name: None, color: None, visible: None, chat: None, crownsolo: Some(true) });
    h.handle_message("c1", &msg("chset", solo), 2001);
    let mut notes = data();
    notes.n = Some("[{\"n\":\"C4\",\"d\":0}]".to_string());
    notes.n_count = Some(1);
    let out = h.handle_message("c2", &msg("n", notes.clone()), 2002);
    assert!(out.is_empty());
    let out = h.handle_message("c1", &msg("n", notes), 2003);
    assert_eq!(out.len(), 1);
    let mut r = out[0].recipients.clone();
    r.sort();
    assert_eq!(r, vec!["c2".to_string(), "c3".to_string()]);
    match &out[0].frame[0] {
        OutEvent::N { p, .. } => assert_eq!(p, "c1"),
        _ => panic!("expected notes"),
    }
}

#[test]
fn kickban_flow() {
    let mut h = handler_with(&["c1", "c2"]);
    h.handle_message("c1", &msg("ch", join_data("room1")), 2000);
    h.handle_message("c2", &msg("ch", join_data("room1")), 2000);
    let mut d = data();
    d._id = Some("c2".to_string());
    d.ms = Some(60000);
    let out = h.handle_message("c1", &msg("kickban", d), 5000);
    let ban = h.server.banned_users.iter().find(|b| b.user_id == "c2").unwrap();
    assert_eq!(ban.info.channel_id, "room1");
    assert_eq!(ban.info.expiry, 65000);
    assert_eq!(client(&h, "c2").channel_id.as_deref(), Some("test/awkward"));
    let to_c2 = sent_to(&out, "c2");
    assert!(to_c2.iter().any(|f| matches!(&f[0], OutEvent::Ch { ch, .. } if ch._id == "test/awkward")));
    assert!(to_c2.iter().any(|f| matches!(&f[0], OutEvent::Notification { text, .. }
        if text == "You have been banned from room1 for 60 seconds.")));
    let to_c1 = sent_to(&out, "c1");
    assert!(to_c1.iter().any(|f| matches!(&f[0], OutEvent::Notification { text, .. }
        if text == "Anonymous banned Anonymous for 60 seconds.")));

    let out = h.handle_message("c2", &msg("ch", join_data("room1")), 6000);
    assert_eq!(client(&h, "c2").channel_id.as_deref(), Some("test/awkward"));
    assert_eq!(out.len(), 1);
    match &out[0].frame[0] {
        OutEvent::Notification { text, .. } => {
            assert_eq!(text, "You are banned from room1 until 1970-01-01T00:01:05+00:00.")
        }
        _ => panic!("expected a notification"),
    }
}

#[test]
fn kickban_duration_clamped_to_a_day() {
    let mut h = handler_with(&["c1", "c2"]);
    h.handle_message("c1", &msg("ch", join_data("room1")), 2000);
    h.handle_message("c2", &msg("ch", join_data("room1")), 2000);
    let mut d = data();
    d._id = Some("c2".to_string());
    d.ms = Some(10 * 24 * 60 * 60 * 1000);
    h.handle_message("c1", &msg("kickban", d), 5000);
    let ban = h.server.banned_users.iter().find(|b| b.user_id == "c2").unwrap();
    assert_eq!(ban.info.expiry, 5000 + 24 * 60 * 60 * 1000);
}

#[test]
fn unban_lifts_the_ban() {
    let mut h = handler_with(&["c1", "c2"]);
    h.handle_message("c1", &msg("ch", join_data("room1")), 2000);
    h.handle_message("c2", &msg("ch", join_data("room1")), 2000);
    let mut d = data();
    d._id = Some("c2".to_string());
    d.ms = Some(60000);
    h.handle_message("c1", &msg("kickban", d.clone()), 5000);
    h.handle_message("c1", &msg("unban", d), 5001);
    assert!(h.server.banned_users.is_empty());
    h.handle_message("c2", &msg("ch", join_data("room1")), 5002);
    assert_eq!(client(&h, "c2").channel_id.as_deref(), Some("room1"));
}

#[test]
fn empty_channel_is_deleted() {
    let mut h = handler_with(&["c1", "c9"]);
    h.handle_message("c9", &msg("+ls", data()), 1500);
    h.handle_message("c1", &msg("ch", join_data("room1")), 2000);
    let out = h.server.close_connection("c1", 3000);
    assert!(channel(&h, "room1").is_none());
    assert!(sent_to(&out, "c9").iter().any(|f| matches!(&f[0], OutEvent::Ls { u, .. } if u[0]._id == "room1")));
}

#[test]
fn lobby_is_kept_when_empty() {
    let mut h = handler_with(&["c1"]);
    h.handle_message("c1", &msg("ch", join_data("lobby")), 2000);
    h.server.close_connection("c1", 3000);
    let lobby = channel(&h, "lobby").unwrap();
    assert!(lobby.participants.is_empty());
    assert!(lobby.crown.is_none());
}

#[test]
fn disconnect_leaves_no_trace() {
    let mut h = handler_with(&["c1", "c2"]);
    h.handle_message("c1", &msg("ch", join_data("room1")), 2000);
    h.handle_message("c2", &msg("ch", join_data("room1")), 2000);
    h.handle_message("c1", &msg("+ls", data()), 2000);
    let out = h.server.close_connection("c1", 3000);
    assert!(h.server.clients.iter().all(|c| c.id != "c1"));
    assert!(h.server.ws_senders.iter().all(|s| s != "c1"));
    assert!(h.server.subscribed_to_ls.iter().all(|s| s != "c1"));
    assert!(h.server.channels.iter().all(|c| c.participants.iter().all(|p| p.id != "c1")));
    assert_eq!(holder(&h, "room1"), Some("c2".to_string()));
    assert!(sent_to(&out, "c2").iter().any(|f| matches!(&f[0], OutEvent::Bye { p } if p == "c1")));
}

#[test]
fn time_echo() {
    let mut h = handler_with(&["c1"]);
    let mut d = data();
    d.e = Some("12345".to_string());
    let out = h.handle_message("c1", &msg("t", d), 7777);
    assert_eq!(out.len(), 1);
    match &out[0].frame[0] {
        OutEvent::T { t, e } => {
            assert_eq!(*t, 7777);
            assert_eq!(e, "12345");
        }
        _ => panic!("expected a time reply"),
    }
}

#[test]
fn minus_ls_is_idempotent() {
    let mut h = handler_with(&["c1", "c2"]);
    h.handle_message("c1", &msg("+ls", data()), 1000);
    h.handle_message("c2", &msg("+ls", data()), 1000);
    h.handle_message("c1", &msg("-ls", data()), 1000);
    let once = h.server.subscribed_to_ls.clone();
    h.handle_message("c1", &msg("-ls", data()), 1000);
    assert_eq!(h.server.subscribed_to_ls, once);
    assert_eq!(once, vec!["c2".to_string()]);
}

#[test]
fn broadcast_is_one_frame_for_all() {
    let mut h = handler_with(&["c1", "c2", "c3"]);
    for c in ["c1", "c2", "c3"] {
        h.handle_message(c, &msg("ch", join_data("lobby")), 2000);
    }
    let mut d = data();
    d.message = Some("hello".to_string());
    let out = h.handle_message("c2", &msg("a", d), 3000);
    assert_eq!(out.len(), 1);
    assert_eq!(out[0].recipients.len(), 3);
    match &out[0].frame[0] {
        OutEvent::A { a, p, t } => {
            assert_eq!(a, "hello");
            assert_eq!(p.id, "c2");
            assert_eq!(*t, 3000);
        }
        _ => panic!("expected a chat"),
    }
}

fn chat_of_len(len: usize) -> bool {
    let mut h = handler_with(&["c1"]);
    h.handle_message("c1", &msg("ch", join_data("lobby")), 2000);
    let mut d = data();
    d.message = Some("x".repeat(len));
    let out = h.handle_message("c1", &msg("a", d), 3000);
    has_chat(&out)
}

#[test]
fn chat_of_256_is_delivered() {
    assert!(chat_of_len(256));
}

#[test]
fn chat_of_257_is_dropped() {
    assert!(!chat_of_len(257));
}

#[test]
fn empty_chat_is_dropped() {
    assert!(!chat_of_len(0));
}

#[test]
fn chat_needs_chat_enabled() {
    let mut h = handler_with(&["c1"]);
    h.handle_message("c1", &msg("ch", join_data("room1")), 2000);
    let mut d = data();
    d.message = Some("hi".to_string());
    assert!(!has_chat(&h.handle_message("c1", &msg("a", d), 3000)));
}

fn rename(name: &str) -> Option<String> {
    let mut h = handler_with(&["c1"]);
    let mut d = data();
    d.set = Some(SetFields { name: Some(name.to_string()), color: None, visible: None, chat: None, crownsolo: None });
    h.handle_message("c1", &msg("userset", d), 2000);
    client(&h, "c1").participant.as_ref().map(|p| p.name.clone())
}

#[test]
fn name_of_40_after_trim_is_accepted() {
    let name = format!("  {}  ", "n".repeat(40));
    assert_eq!(rename(&name), Some("n".repeat(40)));
}

#[test]
fn name_of_41_is_rejected() {
    assert_eq!(rename(&"n".repeat(41)), Some("Anonymous".to_string()));
}

#[test]
fn blank_name_is_rejected() {
    assert_eq!(rename("   "), Some("Anonymous".to_string()));
}

#[test]
fn long_channel_id_goes_to_lobby() {
    let mut h = handler_with(&["c1"]);
    h.handle_message("c1", &msg("ch", join_data(&"r".repeat(513))), 2000);
    assert_eq!(client(&h, "c1").channel_id.as_deref(), Some("lobby"));
    let mut h = handler_with(&["c1"]);
    h.handle_message("c1", &msg("ch", join_data(&"r".repeat(512))), 2000);
    assert_eq!(client(&h, "c1").channel_id, Some("r".repeat(512)));
}

#[test]
fn second_move_within_50ms_is_dropped() {
    let mut h = handler_with(&["c1", "c2"]);
    h.handle_message("c1", &msg("ch", join_data("room1")), 2000);
    h.handle_message("c2", &msg("ch", join_data("room1")), 2000);
    let mut d = data();
    d.x = Some(1);
    d.y = Some(2);
    let out = h.handle_message("c1", &msg("m", d.clone()), 3000);
    assert_eq!(out.len(), 1);
    d.x = Some(5);
    let out = h.handle_message("c1", &msg("m", d.clone()), 3049);
    assert!(out.is_empty());
    assert_eq!(client(&h, "c1").participant.as_ref().unwrap().x, 1);
    let out = h.handle_message("c1", &msg("m", d), 3050);
    assert_eq!(out.len(), 1);
    assert_eq!(client(&h, "c1").participant.as_ref().unwrap().x, 5);
}

#[test]
fn hi_greets_with_default_participant() {
    let mut server = Server::new();
    server.handle_connection("abcdef123456");
    let mut h = MessageHandler::new(server);
    let out = h.handle_message("abcdef123456", &msg("hi", data()), 42);
    assert_eq!(out.len(), 1);
    match &out[0].frame[0] {
        OutEvent::Hi { u, t, v, motd } => {
            assert_eq!(u.name, "Anonymous");
            assert_eq!(u.color, "#abcdef");
            assert_eq!(*t, 42);
            assert_eq!(v, "1.0.0");
            assert_eq!(motd, "Welcome to Multiplayer Piano!");
        }
        _ => panic!("expected hi"),
    }
    match &out[0].frame[1] {
        OutEvent::Nq { params } => {
            assert_eq!(params.allowance, 8000);
            assert_eq!(params.max, 24000);
            assert_eq!(params.max_hist_len, 3);
        }
        _ => panic!("expected quota parameters"),
    }
}

#[test]
fn plus_ls_lists_visible_channels() {
    let mut h = handler_with(&["c1", "c2"]);
    h.handle_message("c1", &msg("ch", join_data("room1")), 2000);
    let out = h.handle_message("c2", &msg("+ls", data()), 2001);
    match &out[0].frame[0] {
        OutEvent::Ls { c, u } => {
            assert!(*c);
            assert_eq!(u.len(), 1);
            assert_eq!(u[0]._id, "room1");
            assert_eq!(u[0].count, 1);
        }
        _ => panic!("expected a listing"),
    }
}

#[test]
fn devices_are_acknowledged() {
    let mut h = handler_with(&["c1"]);
    let mut d = data();
    d.list = Some("[1,2]".to_string());
    let out = h.handle_message("c1", &msg("devices", d), 2000);
    match &out[0].frame[0] {
        OutEvent::Devices { list } => assert_eq!(list, "[1,2]"),
        _ => panic!("expected devices"),
    }
}

#[test]
fn unknown_tag_is_ignored() {
    let mut h = handler_with(&["c1"]);
    let out = h.handle_message("c1", &msg("zzz", data()), 2000);
    assert!(out.is_empty());
}

#[test]
fn invariants_hold_after_a_session() {
    let mut h = handler_with(&["c1", "c2", "c3"]);
    h.handle_message("c1", &msg("ch", join_data("room1")), 2000);
    h.handle_message("c2", &msg("ch", join_data("room1")), 2000);
    h.handle_message("c3", &msg("ch", join_data("room2")), 2000);
    h.handle_message("c2", &msg("ch", join_data("room2")), 2100);
    h.server.close_connection("c3", 2200);
    for ch in &h.server.channels {
        let special = ch._id == "lobby" || ch._id.starts_with("test/");
        assert_eq!(special, ch.crown.is_none());
        for p in &ch.participants {
            assert_eq!(client(&h, &p.id).channel_id.as_deref(), Some(ch._id.as_str()));
        }
        if let Some(holder) = ch.crown.as_ref().and_then(|c| c.participant_id.as_ref()) {
            assert!(ch.participants.iter().any(|p| &p.id == holder));
        }
    }
    assert_eq!(holder(&h, "room2"), Some("c2".to_string()));
    for c in &h.server.clients {
        let q = &c.data.note_quota;
        assert!(0 <= q.points && q.points <= q.max);
        assert_eq!(q.history.len(), q.max_hist_len);
    }
}

#[test]
fn self_kickban_wording() {
    let mut h = handler_with(&["c1", "c2"]);
    h.handle_message("c1", &msg("ch", join_data("room1")), 2000);
    h.handle_message("c2", &msg("ch", join_data("room1")), 2000);
    let mut d = data();
    d._id = Some("c1".to_string());
    d.ms = Some(1000);
    let out = h.handle_message("c1", &msg("kickban", d), 5000);
    assert_eq!(client(&h, "c1").channel_id.as_deref(), Some("test/awkward"));
    let to_c2 = sent_to(&out, "c2");
    assert!(to_c2.iter().any(|f| matches!(&f[0], OutEvent::Notification { text, .. }
        if text == "Let it be known that Anonymous kickbanned him/her self.")));
}

#[test]
fn chown_without_target_releases_the_crown() {
    let mut h = handler_with(&["c1"]);
    h.handle_message("c1", &msg("ch", join_data("room1")), 2000);
    h.handle_message("c1", &msg("chown", data()), 2500);
    let crown = channel(&h, "room1").unwrap().crown.clone().unwrap();
    assert_eq!(crown.participant_id, None);
    assert_eq!(crown.user_id.as_deref(), Some("c1"));
    assert_eq!(crown.time, 2500);
}

#[test]
fn movement_is_relayed_to_others() {
    let mut h = handler_with(&["c1", "c2"]);
    h.handle_message("c1", &msg("ch", join_data("room1")), 2000);
    h.handle_message("c2", &msg("ch", join_data("room1")), 2000);
    let mut d = data();
    d.x = Some(7);
    d.y = Some(9);
    let out = h.handle_message("c1", &msg("m", d), 3000);
    assert_eq!(out[0].recipients, vec!["c2".to_string()]);
    match &out[0].frame[0] {
        OutEvent::M { id, x, y } => {
            assert_eq!(id, "c1");
            assert_eq!((*x, *y), (7, 9));
        }
        _ => panic!("expected a move"),
    }
}

#[test]
fn switching_out_of_an_emptied_room_deletes_it() {
    let mut h = handler_with(&["c1", "c9"]);
    h.handle_message("c9", &msg("+ls", data()), 1500);
    h.handle_message("c1", &msg("ch", join_data("room1")), 2000);
    let out = h.handle_message("c1", &msg("ch", join_data("room2")), 2100);
    assert!(channel(&h, "room1").is_none());
    assert!(channel(&h, "room2").is_some());
    assert!(sent_to(&out, "c9").iter().any(|f| matches!(&f[0], OutEvent::Ls { u, .. } if u[0]._id == "room1")));
}

#[test]
fn new_room_has_only_the_joiner() {
    let mut h = handler_with(&["c1"]);
    h.handle_message("c1", &msg("ch", join_data("room1")), 2000);
    let room = channel(&h, "room1").unwrap();
    assert_eq!(room.participants.len(), 1);
    assert_eq!(room.participants[0].id, "c1");
    assert_eq!(room.crown.as_ref().unwrap().user_id.as_deref(), Some("c1"));
}
