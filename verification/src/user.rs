//! Session and channel data: the per-connection state the server keeps for
//! one client, and the name of a channel.
use vstd::prelude::*;

verus! {

use vstd::string::StringExecFns;

/// Server-side state for one connected client. The session is keyed by a
/// unique id; its channel field refers to a channel by name rather than by
/// an owning pointer.
#[derive(Debug)]
pub struct User {
    pub id: u128,
    pub nickname: Option<String>,
    pub username: Option<String>,
    pub hostname: String,
    pub channel: Option<String>,
    pub is_registered: bool,
    pub is_away: bool,
}

/// The mathematical value of a `User`.
#[verifier::ext_equal]
pub struct UserView {
    pub id: u128,
    pub nickname: Option<Seq<char>>,
    pub username: Option<Seq<char>>,
    pub hostname: Seq<char>,
    pub channel: Option<Seq<char>>,
    pub is_registered: bool,
    pub is_away: bool,
}

impl View for User {
    type V = UserView;

    open spec fn view(&self) -> UserView {
        UserView {
            id: self.id,
            nickname: self.nickname.deep_view(),
            username: self.username.deep_view(),
            hostname: self.hostname@,
            channel: self.channel.deep_view(),
            is_registered: self.is_registered,
            is_away: self.is_away,
        }
    }
}

impl DeepView for User {
    type V = UserView;

    open spec fn deep_view(&self) -> UserView {
        self.view()
    }
}

/// A freshly connected session: no nickname, no username, no channel, not
/// registered, not away.
pub open spec fn blank_user(id: u128, hostname: Seq<char>) -> UserView {
    UserView {
        id,
        nickname: None,
        username: None,
        hostname,
        channel: None,
        is_registered: false,
        is_away: false,
    }
}

/// The identity prefix `nick!user@host` of a session, defined once both
/// its nickname and its username are set.
pub open spec fn prefix_of(u: UserView) -> Option<Seq<char>> {
    match u.nickname {
        Some(n) => match u.username {
            Some(us) => Some(n + seq!['!'] + us + seq!['@'] + u.hostname),
            None => None,
        },
        None => None,
    }
}

/// The identity prefix of a session, or the empty prefix while the session
/// is not fully identified.
pub open spec fn prefix_or_empty(u: UserView) -> Seq<char> {
    match prefix_of(u) {
        Some(p) => p,
        None => Seq::empty(),
    }
}

impl User {
    pub fn new(id: u128, hostname: String) -> (r: User)
        ensures
            r@ == blank_user(id, hostname@),
    {
        let r = User {
            id,
            nickname: None,
            username: None,
            hostname,
            channel: None,
            is_registered: false,
            is_away: false,
        };
        proof {
            assert(r@ =~= blank_user(id, r.hostname@));
        }
        r
    }

    /// The session's identity prefix, once nickname and username are set.
    pub fn prefix(&self) -> (r: Option<String>)
        ensures
            r.deep_view() == prefix_of(self@),
    {
        match &self.nickname {
            Some(n) => match &self.username {
                Some(us) => {
                    let mut s = n.clone();
                    s.append("!");
                    s.append(us.as_str());
                    s.append("@");
                    s.append(self.hostname.as_str());
                    proof {
                        reveal_strlit("!");
                        reveal_strlit("@");
                        assert(s@ =~= n@ + seq!['!'] + us@ + seq!['@'] + self.hostname@);
                    }
                    Some(s)
                },
                None => None,
            },
            None => None,
        }
    }
}

/// A name-addressed group of sessions. Membership is derived: a session is
/// a member exactly when its channel field holds this name.
#[derive(Debug)]
pub struct Channel {
    pub name: String,
}

impl View for Channel {
    type V = Seq<char>;

    open spec fn view(&self) -> Seq<char> {
        self.name@
    }
}

impl DeepView for Channel {
    type V = Seq<char>;

    open spec fn deep_view(&self) -> Seq<char> {
        self.view()
    }
}

impl Channel {
    pub fn new(name: &str) -> (r: Channel)
        ensures
            r@ == name@,
    {
        Channel { name: name.to_owned() }
    }
}

} // verus!
