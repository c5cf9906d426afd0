use irc_relay::message::{Command, Message, ToIrcMessage};
use irc_relay::server::{
    broadcast_to_all, get_nickname_id, handle_message, nickname_in_use, send_to_user,
    ChannelTable, ClientTable, CommandResponse, Delivery, RouteError,
};
use irc_relay::user::User;

const SERVER: &str = "127.0.0.1";

fn add(t: &mut ClientTable, id: u128, host: &str) {
    assert!(t.add_user(User::new(id, host.to_string())));
}

fn send(
    users: &mut ClientTable,
    channels: &mut ChannelTable,
    id: u128,
    line: &str,
) -> (Vec<Delivery>, CommandResponse) {
    let m = Message::from(line).expect("test line should parse");
    handle_message(m, users, channels, id, SERVER)
}

/// NICK and USER for one session; checks the welcome fires exactly here.
fn register(
    users: &mut ClientTable,
    channels: &mut ChannelTable,
    id: u128,
    nick: &str,
    user: &str,
) {
    let (out, r) = send(users, channels, id, &format!(":c NICK {nick}"));
    assert_eq!(r, CommandResponse::Continue);
    assert!(out.is_empty());
    let (out, r) = send(users, channels, id, &format!(":c USER {user}"));
    assert_eq!(r, CommandResponse::Continue);
    assert_eq!(out.len(), 1);
    assert_eq!(out[0].to, id);
    assert!(out[0].line.contains(" 001 "));
}

#[test]
fn registration_sends_one_welcome() {
    let mut users = ClientTable::new();
    let mut chans = ChannelTable::new();
    add(&mut users, 1, "ha");
    let (out, _) = send(&mut users, &mut chans, 1, ":c NICK alice");
    assert!(out.is_empty());
    let (out, _) = send(&mut users, &mut chans, 1, ":c USER a");
    assert_eq!(out.len(), 1);
    assert_eq!(out[0].to, 1);
    assert_eq!(
        out[0].line,
        ":alice!a@ha 001 alice :Welcome to the Internet Relay Network alice!a@ha\r\n"
    );
}

#[test]
fn registration_works_user_first() {
    let mut users = ClientTable::new();
    let mut chans = ChannelTable::new();
    add(&mut users, 1, "ha");
    let (out, _) = send(&mut users, &mut chans, 1, ":c USER a");
    assert!(out.is_empty());
    let (out, _) = send(&mut users, &mut chans, 1, ":c NICK alice");
    assert_eq!(out.len(), 1);
    assert!(out[0].line.contains(" 001 "));
}

#[test]
fn commands_before_registration_are_refused() {
    let mut users = ClientTable::new();
    let mut chans = ChannelTable::new();
    add(&mut users, 1, "ha");
    add(&mut users, 2, "hb");
    let (out, r) = send(&mut users, &mut chans, 1, ":c PRIVMSG bob :hi");
    assert_eq!(r, CommandResponse::Continue);
    assert_eq!(out.len(), 1);
    assert_eq!(out[0].to, 1);
    assert_eq!(out[0].line, ":127.0.0.1 451 :You have not registered.\r\n");
    let (out, _) = send(&mut users, &mut chans, 1, ":c JOIN #room");
    assert_eq!(out[0].line, ":127.0.0.1 451 :You have not registered.\r\n");
}

#[test]
fn nickname_collision_is_rejected_and_nothing_changes() {
    let mut users = ClientTable::new();
    let mut chans = ChannelTable::new();
    add(&mut users, 1, "ha");
    add(&mut users, 2, "hb");
    register(&mut users, &mut chans, 1, "alice", "a");
    let (out, _) = send(&mut users, &mut chans, 2, ":c NICK alice");
    assert_eq!(out.len(), 1);
    assert_eq!(out[0].to, 2);
    assert_eq!(out[0].line, ":127.0.0.1 433 :Nickname is already in use.\r\n");
    assert_eq!(get_nickname_id("alice", &users), Some(1));
    assert!(users.user_at(1).nickname.is_none());
}

#[test]
fn taking_ones_own_nickname_again_is_allowed() {
    let mut users = ClientTable::new();
    let mut chans = ChannelTable::new();
    add(&mut users, 1, "ha");
    register(&mut users, &mut chans, 1, "alice", "a");
    let (out, _) = send(&mut users, &mut chans, 1, ":c NICK alice");
    // a registered rename is broadcast to everyone, the sender included
    assert_eq!(out.len(), 1);
    assert_eq!(out[0].to, 1);
    assert_eq!(out[0].line, ":alice!a@ha NICK :alice\r\n");
}

#[test]
fn registered_rename_is_broadcast_to_all() {
    let mut users = ClientTable::new();
    let mut chans = ChannelTable::new();
    add(&mut users, 1, "ha");
    add(&mut users, 2, "hb");
    register(&mut users, &mut chans, 1, "alice", "a");
    register(&mut users, &mut chans, 2, "bob", "b");
    let (out, _) = send(&mut users, &mut chans, 1, ":c NICK alicia");
    assert_eq!(out.len(), 2);
    assert_eq!(out[0].to, 1);
    assert_eq!(out[1].to, 2);
    // the notification still carries the old identity prefix
    assert_eq!(out[0].line, ":alice!a@ha NICK :alicia\r\n");
    assert_eq!(get_nickname_id("alicia", &users), Some(1));
    assert_eq!(get_nickname_id("alice", &users), None);
}

#[test]
fn repeated_user_is_refused_and_username_unchanged() {
    let mut users = ClientTable::new();
    let mut chans = ChannelTable::new();
    add(&mut users, 1, "ha");
    register(&mut users, &mut chans, 1, "alice", "a");
    let (out, _) = send(&mut users, &mut chans, 1, ":c USER other");
    assert_eq!(out.len(), 1);
    assert_eq!(out[0].to, 1);
    assert_eq!(
        out[0].line,
        ":127.0.0.1 462 :Cannot send USER message since the client is already registered.\r\n"
    );
    assert_eq!(users.user_at(0).username.as_deref(), Some("a"));
}

#[test]
fn private_message_reaches_only_its_target() {
    let mut users = ClientTable::new();
    let mut chans = ChannelTable::new();
    add(&mut users, 1, "ha");
    add(&mut users, 2, "hb");
    register(&mut users, &mut chans, 1, "alice", "a");
    register(&mut users, &mut chans, 2, "bob", "b");
    let (out, _) = send(&mut users, &mut chans, 1, ":c PRIVMSG bob :hi");
    assert_eq!(out.len(), 1);
    assert_eq!(out[0].to, 2);
    assert_eq!(out[0].line, ":alice!a@ha PRIVMSG bob :hi\r\n");
}

#[test]
fn message_to_away_session_warns_sender_and_is_still_forwarded() {
    let mut users = ClientTable::new();
    let mut chans = ChannelTable::new();
    add(&mut users, 1, "ha");
    add(&mut users, 2, "hb");
    register(&mut users, &mut chans, 1, "alice", "a");
    register(&mut users, &mut chans, 2, "bob", "b");
    let (out, _) = send(&mut users, &mut chans, 2, ":c AWAY");
    assert_eq!(out[0].line, ":127.0.0.1 306 :You are now away.\r\n");
    let (out, _) = send(&mut users, &mut chans, 1, ":c PRIVMSG bob :hi");
    assert_eq!(out.len(), 2);
    assert_eq!(out[0].to, 1);
    assert_eq!(
        out[0].line,
        ":127.0.0.1 301 bob :The recipient is marked as away.\r\n"
    );
    assert_eq!(out[1].to, 2);
    assert_eq!(out[1].line, ":alice!a@ha PRIVMSG bob :hi\r\n");
    let (out, _) = send(&mut users, &mut chans, 2, ":c AWAY");
    assert_eq!(out[0].line, ":127.0.0.1 305 :You are no longer away.\r\n");
}

#[test]
fn channel_message_reaches_members_only() {
    let mut users = ClientTable::new();
    let mut chans = ChannelTable::new();
    add(&mut users, 1, "ha");
    add(&mut users, 2, "hb");
    add(&mut users, 3, "hc");
    register(&mut users, &mut chans, 1, "alice", "a");
    register(&mut users, &mut chans, 2, "bob", "b");
    register(&mut users, &mut chans, 3, "carol", "c");
    let (out, _) = send(&mut users, &mut chans, 1, ":c JOIN #room");
    assert!(out.is_empty());
    let (out, _) = send(&mut users, &mut chans, 2, ":c JOIN #room");
    assert!(out.is_empty());
    let (out, _) = send(&mut users, &mut chans, 1, ":c PRIVMSG #room :yo");
    let recipients: Vec<u128> = out.iter().map(|d| d.to).collect();
    assert_eq!(recipients, vec![1, 2]);
    assert!(recipients.iter().all(|r| *r != 3));
    assert_eq!(out[1].line, ":alice!a@ha PRIVMSG #room :yo\r\n");
}

#[test]
fn parting_clears_membership() {
    let mut users = ClientTable::new();
    let mut chans = ChannelTable::new();
    add(&mut users, 1, "ha");
    add(&mut users, 2, "hb");
    register(&mut users, &mut chans, 1, "alice", "a");
    register(&mut users, &mut chans, 2, "bob", "b");
    send(&mut users, &mut chans, 1, ":c JOIN #room");
    send(&mut users, &mut chans, 2, ":c JOIN #room");
    let (out, _) = send(&mut users, &mut chans, 2, ":c PART #room");
    assert!(out.is_empty());
    let (out, _) = send(&mut users, &mut chans, 1, ":c PRIVMSG #room :yo");
    assert_eq!(out.len(), 1);
    assert_eq!(out[0].to, 1);
}

#[test]
fn quit_acknowledges_and_notifies_peers() {
    let mut users = ClientTable::new();
    let mut chans = ChannelTable::new();
    add(&mut users, 1, "ha");
    add(&mut users, 2, "hb");
    register(&mut users, &mut chans, 1, "alice", "a");
    register(&mut users, &mut chans, 2, "bob", "b");
    let (out, r) = send(&mut users, &mut chans, 1, ":c QUIT");
    assert_eq!(r, CommandResponse::Quit);
    assert_eq!(out.len(), 2);
    assert_eq!(out[0].to, 1);
    assert_eq!(out[0].line, ":127.0.0.1 ERROR :User disconnected.\r\n");
    assert_eq!(out[1].to, 2);
    assert_eq!(out[1].line, ":alice!a@ha QUIT\r\n");
    // the worker then removes the session; lookups fail afterwards
    users.remove_user(1);
    assert_eq!(users.users_len(), 1);
    assert_eq!(get_nickname_id("alice", &users), None);
    assert!(matches!(
        send_to_user(&Message::new("s", Command::Quit, Vec::new()), &users, 1),
        Err(RouteError::NotFound)
    ));
}

#[test]
fn unregistered_quit_is_acknowledged_without_broadcast() {
    let mut users = ClientTable::new();
    let mut chans = ChannelTable::new();
    add(&mut users, 1, "ha");
    add(&mut users, 2, "hb");
    register(&mut users, &mut chans, 2, "bob", "b");
    let (out, r) = send(&mut users, &mut chans, 1, ":c QUIT");
    assert_eq!(r, CommandResponse::Quit);
    assert_eq!(out.len(), 1);
    assert_eq!(out[0].to, 1);
}

#[test]
fn error_replies_name_each_missing_thing() {
    let mut users = ClientTable::new();
    let mut chans = ChannelTable::new();
    add(&mut users, 1, "ha");
    register(&mut users, &mut chans, 1, "alice", "a");
    let cases = [
        (":c NICK", ":127.0.0.1 431 :No nickname was given.\r\n"),
        (":c USER", ":127.0.0.1 431 :No nickname was given.\r\n"),
        (":c PRIVMSG bob", ":127.0.0.1 411 :No recipient for the message was given.\r\n"),
        (":c PRIVMSG bob :hi", ":127.0.0.1 401 :The given nick was not found.\r\n"),
        (":c PRIVMSG #nochan :hi", ":127.0.0.1 403 :The given channel was not found.\r\n"),
        (":c JOIN", ":127.0.0.1 461 :Specify which channel to join.\r\n"),
        (":c PART", ":127.0.0.1 461 :Specify which channel to part.\r\n"),
        (":c PART #nochan", ":127.0.0.1 403 :The given channel was not found.\r\n"),
        (":c BLORP", ":127.0.0.1 421 :Unknown command.\r\n"),
    ];
    for (line, expected) in cases {
        let (out, _) = send(&mut users, &mut chans, 1, line);
        assert_eq!(out.len(), 1, "line {:?}", line);
        assert_eq!(out[0].to, 1);
        assert_eq!(out[0].line, expected, "line {:?}", line);
    }
}

#[test]
fn other_known_commands_echo_back_to_sender() {
    let mut users = ClientTable::new();
    let mut chans = ChannelTable::new();
    add(&mut users, 1, "ha");
    register(&mut users, &mut chans, 1, "alice", "a");
    let (out, _) = send(&mut users, &mut chans, 1, ":c LIST");
    assert_eq!(out.len(), 1);
    assert_eq!(out[0].to, 1);
    assert_eq!(out[0].line, ":alice!a@ha LIST\r\n");
}

#[test]
fn create_draws_a_usable_session_id() {
    let mut users = ClientTable::new();
    let id = users.create("ha".to_string()).expect("fresh id");
    assert_eq!(users.users_len(), 1);
    assert!(!nickname_in_use("alice", &users));
    let msg = Message::new("s", Command::Error, vec!["hello".to_string()]);
    let d = send_to_user(&msg, &users, id).expect("session exists");
    assert_eq!(d.to, id);
    assert_eq!(d.line, ":s ERROR :hello\r\n");
}

#[test]
fn add_user_refuses_a_taken_id() {
    let mut users = ClientTable::new();
    add(&mut users, 7, "ha");
    assert!(!users.add_user(User::new(7, "hb".to_string())));
    assert_eq!(users.users_len(), 1);
}

#[test]
fn removing_an_absent_session_does_nothing() {
    let mut users = ClientTable::new();
    add(&mut users, 1, "ha");
    users.remove_user(99);
    assert_eq!(users.users_len(), 1);
}

#[test]
fn broadcasts_reach_everyone_in_order() {
    let mut users = ClientTable::new();
    add(&mut users, 1, "ha");
    add(&mut users, 2, "hb");
    add(&mut users, 3, "hc");
    let msg = Message::new("s", Command::Error, vec!["x".to_string()]);
    let all = broadcast_to_all(&msg, &users);
    assert_eq!(all.iter().map(|d| d.to).collect::<Vec<_>>(), vec![1, 2, 3]);
    assert!(all.iter().all(|d| d.line == ":s ERROR :x\r\n"));
    let except = users.broadcast_message(&msg, 2);
    assert_eq!(except.iter().map(|d| d.to).collect::<Vec<_>>(), vec![1, 3]);
}

#[test]
fn contains_id_tracks_membership() {
    let mut users = ClientTable::new();
    assert!(!users.contains_id(1));
    add(&mut users, 1, "ha");
    assert!(users.contains_id(1));
    users.remove_user(1);
    assert!(!users.contains_id(1));
}

#[test]
fn channels_are_created_once_and_found() {
    let mut chans = ChannelTable::new();
    assert!(!chans.contains("#room"));
    chans.get_or_create("#room");
    assert!(chans.contains("#room"));
    chans.get_or_create("#room");
    assert!(chans.contains("#room"));
    assert!(!chans.contains("#other"));
}

#[test]
fn user_prefix_needs_both_names() {
    let mut u = User::new(1, "ha".to_string());
    assert!(u.prefix().is_none());
    u.nickname = Some("alice".to_string());
    assert!(u.prefix().is_none());
    u.username = Some("a".to_string());
    assert_eq!(u.prefix().as_deref(), Some("alice!a@ha"));
}

#[test]
fn to_irc_message_appends_terminator() {
    let msg = Message::new("p", Command::Nick, vec!["n".to_string()]);
    assert_eq!(msg.to_irc_message(), ":p NICK :n\r\n");
}
