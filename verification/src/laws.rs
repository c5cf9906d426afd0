//! Protocol laws: what the state machine guarantees across sessions,
//! proved once and for all over the `step` transition that
//! `handle_message` is verified to implement.
use vstd::prelude::*;

verus! {

use crate::message::{Command, MessageView, ReplyCode};
use crate::server::{
    gate_passes,
    has_id,
    idx_of_id,
    lemma_first_with_nick,
    lemma_idx_of_id,
    lemma_step_preserves_wf,
    first_with_nick,
    resp_line,
    step,
    to_one,
    wf_users,
    ids_unique,
    reg_consistent,
};
use crate::user::UserView;

/// In a well-formed registry, a session's own id leads back to its own
/// position.
pub proof fn lemma_idx_of_own_id(users: Seq<UserView>, i: int)
    requires
        ids_unique(users),
        0 <= i < users.len(),
    ensures
        idx_of_id(users, users[i].id) == i,
        has_id(users, users[i].id),
{
    lemma_idx_of_id(users, users[i].id);
    let k = idx_of_id(users, users[i].id);
    if k == users.len() {
        assert(users[i].id != users[i].id);
    }
    if k != i {
        assert(users[k].id == users[i].id);
        assert(false);
    }
}

/// A nickname held by one session cannot be taken by another: when the
/// session at `s1` holds nickname `n`, a NICK request for `n` from the
/// different session at `s2` is rejected with ERR_NICKNAMEINUSE, and no
/// session's record changes — in particular both nicknames stay as they
/// were.
pub proof fn lemma_nick_collision_rejected(
    users: Seq<UserView>,
    channels: Seq<Seq<char>>,
    s1: int,
    s2: int,
    m: MessageView,
    sp: Seq<char>,
    n: Seq<char>,
)
    requires
        wf_users(users),
        0 <= s1 < users.len(),
        0 <= s2 < users.len(),
        s1 != s2,
        users[s1].nickname == Some(n),
        m.command == Command::Nick,
        m.params.len() > 0,
        m.params[0] == n,
    ensures
        ({
            let s = step(users, channels, users[s2].id, m, sp);
            &&& s.users == users
            &&& s.channels == channels
            &&& s.out == to_one(
                users[s2].id,
                resp_line(
                    sp,
                    ReplyCode::ERR_NICKNAMEINUSE.spec_code(),
                    seq!["Nickname is already in use."@],
                ),
            )
            &&& !s.quit
        }),
{
    let id = users[s2].id;
    lemma_idx_of_own_id(users, s2);
    lemma_first_with_nick(users, n);
    let k = first_with_nick(users, n);
    if k == users.len() {
        assert(users[s1].nickname != Some(n));
    }
    assert(k < users.len());
    assert(users[k].nickname == Some(n));
    if users[k].id == id {
        if k != s2 {
            assert(users[k].id != users[s2].id);
        }
        assert(k == s2);
        if s1 < s2 {
            assert(users[s1].nickname != users[s2].nickname);
        } else {
            assert(users[s2].nickname != users[s1].nickname);
        }
        assert(false);
    }
    let s = step(users, channels, id, m, sp);
    assert(s.users =~= users);
    assert(s.out =~= to_one(
        id,
        resp_line(
            sp,
            ReplyCode::ERR_NICKNAMEINUSE.spec_code(),
            seq!["Nickname is already in use."@],
        ),
    ));
}

/// An unregistered session's PRIVMSG is refused: the sender gets exactly
/// one ERR_NOTREGISTERED reply, nothing is delivered to anyone else, and
/// no state changes.
pub proof fn lemma_privmsg_requires_registration(
    users: Seq<UserView>,
    channels: Seq<Seq<char>>,
    i: int,
    m: MessageView,
    sp: Seq<char>,
)
    requires
        wf_users(users),
        0 <= i < users.len(),
        !users[i].is_registered,
        m.command == Command::PrivMsg,
    ensures
        ({
            let s = step(users, channels, users[i].id, m, sp);
            &&& s.users == users
            &&& s.channels == channels
            &&& s.out == to_one(
                users[i].id,
                resp_line(
                    sp,
                    ReplyCode::ERR_NOTREGISTERED.spec_code(),
                    seq!["You have not registered."@],
                ),
            )
            &&& !s.quit
        }),
{
    lemma_idx_of_own_id(users, i);
    assert(!gate_passes(users[i].is_registered, m.command));
    let s = step(users, channels, users[i].id, m, sp);
    assert(s.users =~= users);
    assert(s.out =~= to_one(
        users[i].id,
        resp_line(
            sp,
            ReplyCode::ERR_NOTREGISTERED.spec_code(),
            seq!["You have not registered."@],
        ),
    ));
}

/// Registration is reached only through NICK or USER: a session that
/// becomes registered by a step did so on one of those two commands and
/// then holds both a nickname and a username; and a registered session
/// never reverts.
pub proof fn lemma_registration_gate(
    users: Seq<UserView>,
    channels: Seq<Seq<char>>,
    id: u128,
    m: MessageView,
    sp: Seq<char>,
)
    requires
        wf_users(users),
        has_id(users, id),
    ensures
        ({
            let s = step(users, channels, id, m, sp);
            let i = idx_of_id(users, id);
            &&& (!users[i].is_registered && s.users[i].is_registered) ==> ((m.command
                == Command::Nick || m.command == Command::User) && s.users[i].nickname is Some
                && s.users[i].username is Some)
            &&& (users[i].is_registered ==> s.users[i].is_registered)
        }),
{
    let s = step(users, channels, id, m, sp);
    let i = idx_of_id(users, id);
    lemma_idx_of_id(users, id);
    lemma_step_preserves_wf(users, channels, id, m, sp);
    let u = users[i];
    if !u.is_registered && s.users[i].is_registered {
        match m.command {
            Command::Nick => {},
            Command::User => {},
            Command::Quit => {
                assert(s.users[i] == users[i]);
            },
            _ => {
                assert(!gate_passes(u.is_registered, m.command));
                assert(s.users[i] == users[i]);
            },
        }
        assert(reg_consistent(s.users));
    }
}

/// A registered session's repeated USER is refused with
/// ERR_ALREADYREGISTRED: the stored username does not change — no record
/// changes at all.
pub proof fn lemma_user_already_registered(
    users: Seq<UserView>,
    channels: Seq<Seq<char>>,
    i: int,
    m: MessageView,
    sp: Seq<char>,
)
    requires
        wf_users(users),
        0 <= i < users.len(),
        users[i].is_registered,
        m.command == Command::User,
        m.params.len() > 0,
    ensures
        ({
            let s = step(users, channels, users[i].id, m, sp);
            &&& s.users == users
            &&& s.channels == channels
            &&& s.out == to_one(
                users[i].id,
                resp_line(
                    sp,
                    ReplyCode::ERR_ALREADYREGISTRED.spec_code(),
                    seq!["Cannot send USER message since the client is already registered."@],
                ),
            )
            &&& !s.quit
        }),
{
    lemma_idx_of_own_id(users, i);
    let s = step(users, channels, users[i].id, m, sp);
    assert(s.users =~= users);
    assert(s.out =~= to_one(
        users[i].id,
        resp_line(
            sp,
            ReplyCode::ERR_ALREADYREGISTRED.spec_code(),
            seq!["Cannot send USER message since the client is already registered."@],
        ),
    ));
}

} // verus!
