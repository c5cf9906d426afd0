//! The session and channel registries, the router, and the per-connection
//! protocol state machine.
//!
//! All state-machine work is pure: a command is interpreted against the
//! registries, which are updated in place, and every line to be written to
//! a client comes back as a `Delivery` naming its recipient. The caller
//! owns the sockets and performs the writes.
use vstd::prelude::*;

verus! {

use vstd::string::StrSliceExecFns;
use vstd::string::StringExecFns;
use crate::message::{
    Command,
    Message,
    MessageView,
    ReplyCode,
    Response,
    ResponseView,
    ToIrcMessage,
    crlf,
    serialize_msg,
    serialize_resp,
};
use crate::user::{Channel, User, UserView, blank_user, prefix_of, prefix_or_empty};

/// One serialized protocol line addressed to one session.
#[derive(Debug)]
pub struct Delivery {
    pub to: u128,
    pub line: String,
}

/// The mathematical value of a `Delivery`.
#[verifier::ext_equal]
pub struct DeliveryView {
    pub to: u128,
    pub line: Seq<char>,
}

impl View for Delivery {
    type V = DeliveryView;

    open spec fn view(&self) -> DeliveryView {
        DeliveryView { to: self.to, line: self.line@ }
    }
}

impl DeepView for Delivery {
    type V = DeliveryView;

    open spec fn deep_view(&self) -> DeliveryView {
        self.view()
    }
}

/// What the state machine tells the connection worker after one command:
/// keep reading, or close the connection.
#[derive(Clone, Copy, Debug, PartialEq, Eq, Structural)]
pub enum CommandResponse {
    Continue,
    Quit,
}

/// A failure to route a line: the addressed session is not in the
/// registry. Reportable, never fatal to the caller.
#[derive(Clone, Copy, Debug, PartialEq, Eq, Structural)]
pub enum RouteError {
    NotFound,
}

/// Relies on `uuid::Uuid::new_v4` (and `Uuid::as_u128`) for a randomly
/// drawn session id; nothing is assumed of the value drawn.
#[verifier::external_body]
fn new_session_id() -> u128 {
    uuid::Uuid::new_v4().as_u128()
}

/// Character-for-character string equality.
fn str_eq(a: &str, b: &str) -> (r: bool)
    ensures
        r == (a@ == b@),
{
    let n = a.unicode_len();
    if n != b.unicode_len() {
        return false;
    }
    let mut i: usize = 0;
    while i < n
        invariant
            i <= n,
            n == a@.len(),
            n == b@.len(),
            forall|j: int| 0 <= j < i ==> a@[j] == b@[j],
        decreases n - i,
    {
        if a.get_char(i) != b.get_char(i) {
            return false;
        }
        i += 1;
    }
    proof {
        assert(a@ =~= b@);
    }
    true
}

// ---------------------------------------------------------------------------
// Lookups over the session list
// ---------------------------------------------------------------------------
/// Index of the session with `id`; the list's length when there is none.
pub open spec fn idx_of_id(users: Seq<UserView>, id: u128) -> int
    decreases users.len(),
{
    if users.len() == 0 {
        0
    } else if users[0].id == id {
        0
    } else {
        1 + idx_of_id(users.drop_first(), id)
    }
}

/// True when some session in the list has the id.
pub open spec fn has_id(users: Seq<UserView>, id: u128) -> bool {
    idx_of_id(users, id) < users.len()
}

pub proof fn lemma_idx_of_id(users: Seq<UserView>, id: u128)
    ensures
        0 <= idx_of_id(users, id) <= users.len(),
        idx_of_id(users, id) < users.len() ==> users[idx_of_id(users, id)].id == id,
        forall|j: int| 0 <= j < idx_of_id(users, id) ==> users[j].id != id,
        idx_of_id(users, id) == users.len() ==> forall|j: int|
            0 <= j < users.len() ==> users[j].id != id,
    decreases users.len(),
{
    if users.len() > 0 && users[0].id != id {
        let d = users.drop_first();
        lemma_idx_of_id(d, id);
        assert(forall|j: int| 0 <= j < d.len() ==> d[j] == users[j + 1]);
        assert forall|j: int| 0 <= j < idx_of_id(users, id) implies users[j].id != id by {
            if j > 0 {
                assert(users[j] == d[j - 1]);
            }
        }
        if idx_of_id(users, id) == users.len() {
            assert forall|j: int| 0 <= j < users.len() implies users[j].id != id by {
                if j > 0 {
                    assert(users[j] == d[j - 1]);
                }
            }
        }
    }
}

/// Index of the first session whose nickname is `nick`; the list's length
/// when there is none.
pub open spec fn first_with_nick(users: Seq<UserView>, nick: Seq<char>) -> int
    decreases users.len(),
{
    if users.len() == 0 {
        0
    } else if users[0].nickname == Some(nick) {
        0
    } else {
        1 + first_with_nick(users.drop_first(), nick)
    }
}

pub proof fn lemma_first_with_nick(users: Seq<UserView>, nick: Seq<char>)
    ensures
        0 <= first_with_nick(users, nick) <= users.len(),
        first_with_nick(users, nick) < users.len() ==> users[first_with_nick(
            users,
            nick,
        )].nickname == Some(nick),
        forall|j: int| 0 <= j < first_with_nick(users, nick) ==> users[j].nickname != Some(nick),
        first_with_nick(users, nick) == users.len() ==> forall|j: int|
            0 <= j < users.len() ==> users[j].nickname != Some(nick),
    decreases users.len(),
{
    if users.len() > 0 && users[0].nickname != Some(nick) {
        let d = users.drop_first();
        lemma_first_with_nick(d, nick);
        assert(forall|j: int| 0 <= j < d.len() ==> d[j] == users[j + 1]);
        assert forall|j: int| 0 <= j < first_with_nick(users, nick) implies users[j].nickname
            != Some(nick) by {
            if j > 0 {
                assert(users[j] == d[j - 1]);
            }
        }
        if first_with_nick(users, nick) == users.len() {
            assert forall|j: int| 0 <= j < users.len() implies users[j].nickname != Some(nick) by {
                if j > 0 {
                    assert(users[j] == d[j - 1]);
                }
            }
        }
    }
}

// ---------------------------------------------------------------------------
// The session registry
// ---------------------------------------------------------------------------
/// No two sessions share an id.
pub open spec fn ids_unique(users: Seq<UserView>) -> bool {
    forall|i: int, j: int|
        0 <= i < j < users.len() ==> (#[trigger] users[i]).id != (#[trigger] users[j]).id
}

/// No two sessions hold the same nickname.
pub open spec fn nicks_unique(users: Seq<UserView>) -> bool {
    forall|i: int, j: int|
        0 <= i < j < users.len() && (#[trigger] users[i]).nickname is Some && (
        #[trigger] users[j]).nickname is Some ==> users[i].nickname != users[j].nickname
}

/// A session is registered exactly when both its nickname and its username
/// are set.
pub open spec fn reg_consistent(users: Seq<UserView>) -> bool {
    forall|i: int|
        0 <= i < users.len() ==> ((#[trigger] users[i]).is_registered <==> users[i].nickname
            is Some && users[i].username is Some)
}

/// The registry's well-formedness: session ids are unique, set nicknames
/// are unique, and a session is registered exactly when both its nickname
/// and its username are set.
pub open spec fn wf_users(users: Seq<UserView>) -> bool {
    &&& ids_unique(users)
    &&& nicks_unique(users)
    &&& reg_consistent(users)
}

/// The store of all connected sessions.
pub struct ClientTable {
    users: Vec<User>,
}

impl View for ClientTable {
    type V = Seq<UserView>;

    closed spec fn view(&self) -> Seq<UserView> {
        self.users.deep_view()
    }
}

impl ClientTable {
    pub open spec fn wf(&self) -> bool {
        wf_users(self@)
    }

    pub fn new() -> (r: ClientTable)
        ensures
            r@ == Seq::<UserView>::empty(),
            r.wf(),
    {
        let r = ClientTable { users: Vec::new() };
        proof {
            assert(r@ =~= Seq::<UserView>::empty());
        }
        r
    }

    pub fn users_len(&self) -> (r: usize)
        ensures
            r == self@.len(),
    {
        self.users.len()
    }

    /// A read-only look at the session at a registry position.
    pub fn user_at(&self, i: usize) -> (r: &User)
        requires
            i < self@.len(),
        ensures
            r@ == self@[i as int],
    {
        &self.users[i]
    }

    /// Position of the session with `id`, when it is present.
    fn index_of(&self, id: u128) -> (r: usize)
        ensures
            r as int == idx_of_id(self@, id),
    {
        let n = self.users.len();
        let mut i: usize = 0;
        while i < n
            invariant
                i <= n,
                n == self@.len(),
                forall|j: int| 0 <= j < i ==> self@[j].id != id,
            decreases n - i,
        {
            if self.users[i].id == id {
                proof {
                    lemma_idx_of_id_at(self@, id, i as int);
                }
                return i;
            }
            i += 1;
        }
        proof {
            lemma_idx_of_id_none(self@, id);
        }
        n
    }

    /// Admits a freshly connected session. The id must not be taken: when
    /// it is, nothing changes and `false` comes back.
    pub fn add_user(&mut self, user: User) -> (r: bool)
        requires
            old(self).wf(),
            user@.nickname is None,
            user@.username is None,
            !user@.is_registered,
        ensures
            r == !has_id(old(self)@, user@.id),
            r ==> final(self)@ == old(self)@.push(user@),
            !r ==> final(self)@ == old(self)@,
            final(self).wf(),
    {
        proof {
            lemma_idx_of_id(self@, user@.id);
        }
        let idx = self.index_of(user.id);
        if idx < self.users.len() {
            false
        } else {
            let ghost pre = self@;
            let ghost uv = user@;
            self.users.push(user);
            proof {
                assert(self@ =~= pre.push(uv));
                assert forall|i: int, j: int| 0 <= i < j < self@.len() implies (
                #[trigger] self@[i]).id != (#[trigger] self@[j]).id by {
                    if j < pre.len() {
                    } else {
                        assert(self@[j] == uv);
                        assert(pre[i].id != uv.id);
                    }
                }
                assert(wf_users(self@));
            }
            true
        }
    }

    /// Creates a session for a new connection: draws a fresh id, stores a
    /// blank session under it, and returns the id. `None` when the drawn
    /// id collided with a session already present; nothing changes then.
    pub fn create(&mut self, hostname: String) -> (r: Option<u128>)
        requires
            old(self).wf(),
        ensures
            match r {
                Some(id) => !has_id(old(self)@, id) && final(self)@ == old(self)@.push(
                    blank_user(id, hostname@),
                ),
                None => final(self)@ == old(self)@,
            },
            final(self).wf(),
    {
        let id = new_session_id();
        let user = User::new(id, hostname);
        if self.add_user(user) {
            Some(id)
        } else {
            None
        }
    }

    /// True when the session with `id` is in the registry.
    pub fn contains_id(&self, id: u128) -> (r: bool)
        ensures
            r == has_id(self@, id),
    {
        self.index_of(id) < self.users.len()
    }

    /// Removes the session with `id`; no effect when it is absent.
    pub fn remove_user(&mut self, id: u128)
        requires
            old(self).wf(),
        ensures
            has_id(old(self)@, id) ==> final(self)@ == old(self)@.remove(
                idx_of_id(old(self)@, id),
            ),
            !has_id(old(self)@, id) ==> final(self)@ == old(self)@,
            final(self).wf(),
    {
        proof {
            lemma_idx_of_id(self@, id);
        }
        let idx = self.index_of(id);
        if idx < self.users.len() {
            let ghost pre = self@;
            self.users.remove(idx);
            proof {
                assert(self@ =~= pre.remove(idx as int));
                assert forall|i: int|
                    0 <= i < self@.len() implies self@[i] == if i < idx as int {
                    pre[i]
                } else {
                    pre[i + 1]
                } by {}
                assert(wf_users(self@));
            }
        }
    }
}

proof fn lemma_idx_of_id_at(users: Seq<UserView>, id: u128, i: int)
    requires
        0 <= i < users.len(),
        users[i].id == id,
        forall|j: int| 0 <= j < i ==> users[j].id != id,
    ensures
        idx_of_id(users, id) == i,
    decreases i,
{
    if i > 0 {
        let d = users.drop_first();
        assert(forall|j: int| 0 <= j < d.len() ==> d[j] == users[j + 1]);
        lemma_idx_of_id_at(d, id, i - 1);
    }
}

proof fn lemma_idx_of_id_none(users: Seq<UserView>, id: u128)
    requires
        forall|j: int| 0 <= j < users.len() ==> users[j].id != id,
    ensures
        idx_of_id(users, id) == users.len(),
    decreases users.len(),
{
    if users.len() > 0 {
        let d = users.drop_first();
        assert(forall|j: int| 0 <= j < d.len() ==> d[j] == users[j + 1]);
        lemma_idx_of_id_none(d, id);
    }
}

/// True when some session holds the nickname (whatever its id).
pub fn nickname_in_use(nickname: &str, users: &ClientTable) -> (r: bool)
    ensures
        r == exists|i: int|
            0 <= i < users@.len() && (#[trigger] users@[i]).nickname == Some(nickname@),
{
    proof {
        lemma_first_with_nick(users@, nickname@);
    }
    match get_nickname_id(nickname, users) {
        Some(_) => {
            proof {
                let k = first_with_nick(users@, nickname@);
                assert(0 <= k < users@.len() && users@[k].nickname == Some(nickname@));
            }
            true
        },
        None => false,
    }
}

/// Id of the first session holding the nickname.
pub fn get_nickname_id(nickname: &str, users: &ClientTable) -> (r: Option<u128>)
    ensures
        ({
            let k = first_with_nick(users@, nickname@);
            match r {
                Some(id) => k < users@.len() && id == users@[k].id,
                None => k == users@.len(),
            }
        }),
{
    let n = users.users_len();
    let mut i: usize = 0;
    while i < n
        invariant
            i <= n,
            n == users@.len(),
            forall|j: int| 0 <= j < i ==> users@[j].nickname != Some(nickname@),
        decreases n - i,
    {
        let u = users.user_at(i);
        match &u.nickname {
            Some(name) => {
                if str_eq(name.as_str(), nickname) {
                    proof {
                        lemma_first_with_nick_at(users@, nickname@, i as int);
                    }
                    return Some(u.id);
                }
            },
            None => {},
        }
        i += 1;
    }
    proof {
        lemma_first_with_nick_none(users@, nickname@);
    }
    None
}

proof fn lemma_first_with_nick_at(users: Seq<UserView>, nick: Seq<char>, i: int)
    requires
        0 <= i < users.len(),
        users[i].nickname == Some(nick),
        forall|j: int| 0 <= j < i ==> users[j].nickname != Some(nick),
    ensures
        first_with_nick(users, nick) == i,
    decreases i,
{
    if i > 0 {
        let d = users.drop_first();
        assert(forall|j: int| 0 <= j < d.len() ==> d[j] == users[j + 1]);
        lemma_first_with_nick_at(d, nick, i - 1);
    }
}

proof fn lemma_first_with_nick_none(users: Seq<UserView>, nick: Seq<char>)
    requires
        forall|j: int| 0 <= j < users.len() ==> users[j].nickname != Some(nick),
    ensures
        first_with_nick(users, nick) == users.len(),
    decreases users.len(),
{
    if users.len() > 0 {
        let d = users.drop_first();
        assert(forall|j: int| 0 <= j < d.len() ==> d[j] == users[j + 1]);
        lemma_first_with_nick_none(d, nick);
    }
}

// ---------------------------------------------------------------------------
// The channel registry
// ---------------------------------------------------------------------------
/// True when a channel of this name exists.
pub open spec fn has_chan(chans: Seq<Seq<char>>, name: Seq<char>) -> bool {
    exists|i: int| 0 <= i < chans.len() && chans[i] == name
}

/// Channel names are unique: a channel is a singleton per registry.
pub open spec fn wf_chans(chans: Seq<Seq<char>>) -> bool {
    forall|i: int, j: int| 0 <= i < j < chans.len() ==> chans[i] != chans[j]
}

/// The store of all channels, created lazily on first JOIN and never
/// removed.
pub struct ChannelTable {
    channels: Vec<Channel>,
}

impl View for ChannelTable {
    type V = Seq<Seq<char>>;

    closed spec fn view(&self) -> Seq<Seq<char>> {
        self.channels.deep_view()
    }
}

impl ChannelTable {
    pub open spec fn wf(&self) -> bool {
        wf_chans(self@)
    }

    pub fn new() -> (r: ChannelTable)
        ensures
            r@ == Seq::<Seq<char>>::empty(),
            r.wf(),
    {
        let r = ChannelTable { channels: Vec::new() };
        proof {
            assert(r@ =~= Seq::<Seq<char>>::empty());
        }
        r
    }

    /// True when a channel of this name exists.
    pub fn contains(&self, name: &str) -> (r: bool)
        ensures
            r == has_chan(self@, name@),
    {
        let n = self.channels.len();
        let mut i: usize = 0;
        while i < n
            invariant
                i <= n,
                n == self@.len(),
                forall|j: int| 0 <= j < i ==> self@[j] != name@,
            decreases n - i,
        {
            if str_eq(self.channels[i].name.as_str(), name) {
                proof {
                    assert(0 <= i < self@.len() && self@[i as int] == name@);
                }
                return true;
            }
            i += 1;
        }
        false
    }

    /// Looks the channel up, creating it first when it does not exist yet.
    pub fn get_or_create(&mut self, name: &str)
        requires
            old(self).wf(),
        ensures
            final(self)@ == if has_chan(old(self)@, name@) {
                old(self)@
            } else {
                old(self)@.push(name@)
            },
            has_chan(final(self)@, name@),
            final(self).wf(),
    {
        if !self.contains(name) {
            let ghost pre = self@;
            self.channels.push(Channel::new(name));
            proof {
                assert(self@ =~= pre.push(name@));
                assert(self@[pre.len() as int] == name@);
            }
        }
    }
}

// ---------------------------------------------------------------------------
// The router
// ---------------------------------------------------------------------------
/// One copy of `line` for every session, in registry order.
pub open spec fn route_all(users: Seq<UserView>, line: Seq<char>) -> Seq<DeliveryView>
    decreases users.len(),
{
    if users.len() == 0 {
        Seq::empty()
    } else {
        route_all(users.drop_last(), line).push(DeliveryView { to: users.last().id, line })
    }
}

/// One copy of `line` for every session but the excluded one.
pub open spec fn route_except(users: Seq<UserView>, excluded: u128, line: Seq<char>) -> Seq<
    DeliveryView,
>
    decreases users.len(),
{
    if users.len() == 0 {
        Seq::empty()
    } else {
        let rest = route_except(users.drop_last(), excluded, line);
        if users.last().id != excluded {
            rest.push(DeliveryView { to: users.last().id, line })
        } else {
            rest
        }
    }
}

/// One copy of `line` for every session whose channel field holds `chan`.
pub open spec fn route_channel(users: Seq<UserView>, chan: Seq<char>, line: Seq<char>) -> Seq<
    DeliveryView,
>
    decreases users.len(),
{
    if users.len() == 0 {
        Seq::empty()
    } else {
        let rest = route_channel(users.drop_last(), chan, line);
        if users.last().channel == Some(chan) {
            rest.push(DeliveryView { to: users.last().id, line })
        } else {
            rest
        }
    }
}

/// A broadcast around a session delivers nothing to that session.
pub proof fn lemma_route_except_excludes(users: Seq<UserView>, excluded: u128, line: Seq<char>)
    ensures
        forall|k: int|
            0 <= k < route_except(users, excluded, line).len() ==> (#[trigger] route_except(
                users,
                excluded,
                line,
            )[k]).to != excluded,
    decreases users.len(),
{
    if users.len() > 0 {
        let d = users.drop_last();
        lemma_route_except_excludes(d, excluded, line);
        let r = route_except(users, excluded, line);
        let rd = route_except(d, excluded, line);
        assert forall|k: int| 0 <= k < r.len() implies (#[trigger] r[k]).to != excluded by {
            if users.last().id != excluded {
                if k < rd.len() {
                    assert(r[k] == rd[k]);
                } else {
                    assert(r[k].to == users.last().id);
                }
            } else {
                assert(r[k] == rd[k]);
            }
        }
    }
}

/// A channel message reaches no session outside the channel: when every
/// session with id `to` is not a member, no delivery addresses `to`.
pub proof fn lemma_channel_isolation(
    users: Seq<UserView>,
    chan: Seq<char>,
    line: Seq<char>,
    to: u128,
)
    requires
        forall|j: int|
            0 <= j < users.len() && (#[trigger] users[j]).id == to ==> users[j].channel != Some(
                chan,
            ),
    ensures
        forall|k: int|
            0 <= k < route_channel(users, chan, line).len() ==> (#[trigger] route_channel(
                users,
                chan,
                line,
            )[k]).to != to,
    decreases users.len(),
{
    if users.len() > 0 {
        let d = users.drop_last();
        assert forall|j: int| 0 <= j < d.len() && (#[trigger] d[j]).id == to implies d[j].channel
            != Some(chan) by {
            assert(d[j] == users[j]);
        }
        lemma_channel_isolation(d, chan, line, to);
        let r = route_channel(users, chan, line);
        let rd = route_channel(d, chan, line);
        assert forall|k: int| 0 <= k < r.len() implies (#[trigger] r[k]).to != to by {
            if users.last().channel == Some(chan) {
                if k < rd.len() {
                    assert(r[k] == rd[k]);
                } else {
                    assert(r[k].to == users.last().id);
                    assert(users.last() == users[users.len() - 1]);
                }
            } else {
                assert(r[k] == rd[k]);
            }
        }
    }
}

/// Addresses one line to the session with `id`. An absent session is a
/// reportable error, not a fault.
pub fn send_to_user<T: ToIrcMessage>(message: &T, users: &ClientTable, id: u128) -> (r: Result<
    Delivery,
    RouteError,
>)
    ensures
        match r {
            Ok(d) => has_id(users@, id) && d@ == (DeliveryView { to: id, line: message.wire() }),
            Err(e) => !has_id(users@, id) && e == RouteError::NotFound,
        },
{
    proof {
        lemma_idx_of_id(users@, id);
    }
    let idx = users.index_of(id);
    if idx < users.users_len() {
        let d = Delivery { to: id, line: message.to_irc_message() };
        proof {
            assert(d@ =~= (DeliveryView { to: id, line: message.wire() }));
        }
        Ok(d)
    } else {
        Err(RouteError::NotFound)
    }
}

/// Addresses one line to every session, the sender included.
pub fn broadcast_to_all<T: ToIrcMessage>(message: &T, users: &ClientTable) -> (r: Vec<Delivery>)
    ensures
        r.deep_view() == route_all(users@, message.wire()),
{
    let line = message.to_irc_message();
    let n = users.users_len();
    let mut out: Vec<Delivery> = Vec::new();
    let mut i: usize = 0;
    proof {
        assert(out.deep_view() =~= route_all(users@.subrange(0, 0), line@));
    }
    while i < n
        invariant
            i <= n,
            n == users@.len(),
            line@ == message.wire(),
            out.deep_view() == route_all(users@.subrange(0, i as int), line@),
        decreases n - i,
    {
        let ghost pre = out.deep_view();
        out.push(Delivery { to: users.user_at(i).id, line: line.clone() });
        proof {
            let sub1 = users@.subrange(0, i + 1);
            assert(sub1.drop_last() =~= users@.subrange(0, i as int));
            assert(sub1.last() == users@[i as int]);
            assert(out.deep_view() =~= pre.push(
                DeliveryView { to: users@[i as int].id, line: line@ },
            ));
        }
        i += 1;
    }
    proof {
        assert(users@.subrange(0, n as int) =~= users@);
    }
    out
}

/// Addresses one line to every session except the one excluded.
pub fn broadcast_message<T: ToIrcMessage>(message: &T, users: &ClientTable, id_to_exclude: u128) -> (r:
    Vec<Delivery>)
    ensures
        r.deep_view() == route_except(users@, id_to_exclude, message.wire()),
{
    let line = message.to_irc_message();
    let n = users.users_len();
    let mut out: Vec<Delivery> = Vec::new();
    let mut i: usize = 0;
    proof {
        assert(out.deep_view() =~= route_except(users@.subrange(0, 0), id_to_exclude, line@));
    }
    while i < n
        invariant
            i <= n,
            n == users@.len(),
            line@ == message.wire(),
            out.deep_view() == route_except(users@.subrange(0, i as int), id_to_exclude, line@),
        decreases n - i,
    {
        let ghost pre = out.deep_view();
        let u = users.user_at(i);
        if u.id != id_to_exclude {
            out.push(Delivery { to: u.id, line: line.clone() });
            proof {
                assert(out.deep_view() =~= pre.push(
                    DeliveryView { to: users@[i as int].id, line: line@ },
                ));
            }
        }
        proof {
            let sub1 = users@.subrange(0, i + 1);
            assert(sub1.drop_last() =~= users@.subrange(0, i as int));
            assert(sub1.last() == users@[i as int]);
        }
        i += 1;
    }
    proof {
        assert(users@.subrange(0, n as int) =~= users@);
    }
    out
}

/// Addresses one line to every member of the channel, the sender included
/// when it is a member.
pub fn send_to_channel<T: ToIrcMessage>(message: &T, users: &ClientTable, channel: &Channel) -> (r:
    Vec<Delivery>)
    ensures
        r.deep_view() == route_channel(users@, channel@, message.wire()),
{
    let line = message.to_irc_message();
    let n = users.users_len();
    let mut out: Vec<Delivery> = Vec::new();
    let mut i: usize = 0;
    proof {
        assert(out.deep_view() =~= route_channel(users@.subrange(0, 0), channel@, line@));
    }
    while i < n
        invariant
            i <= n,
            n == users@.len(),
            line@ == message.wire(),
            out.deep_view() == route_channel(users@.subrange(0, i as int), channel@, line@),
        decreases n - i,
    {
        let ghost pre = out.deep_view();
        let u = users.user_at(i);
        let is_member = match &u.channel {
            Some(c) => str_eq(c.as_str(), channel.name.as_str()),
            None => false,
        };
        proof {
            assert(is_member == (users@[i as int].channel == Some(channel@)));
        }
        if is_member {
            out.push(Delivery { to: u.id, line: line.clone() });
            proof {
                assert(out.deep_view() =~= pre.push(
                    DeliveryView { to: users@[i as int].id, line: line@ },
                ));
            }
        }
        proof {
            let sub1 = users@.subrange(0, i + 1);
            assert(sub1.drop_last() =~= users@.subrange(0, i as int));
            assert(sub1.last() == users@[i as int]);
        }
        i += 1;
    }
    proof {
        assert(users@.subrange(0, n as int) =~= users@);
    }
    out
}

impl ClientTable {
    /// Addresses one line to every session except the one excluded.
    pub fn broadcast_message<T: ToIrcMessage>(&self, message: &T, id_to_exclude: u128) -> (r: Vec<
        Delivery,
    >)
        ensures
            r.deep_view() == route_except(self@, id_to_exclude, message.wire()),
    {
        broadcast_message(message, self, id_to_exclude)
    }
}

// ---------------------------------------------------------------------------
// The protocol state machine, as a mathematical step function
// ---------------------------------------------------------------------------
/// The full wire line of a response.
pub open spec fn resp_line(prefix: Seq<char>, code: u16, params: Seq<Seq<char>>) -> Seq<char> {
    serialize_resp(ResponseView { prefix, code, params }) + crlf()
}

/// The full wire line of a message.
pub open spec fn msg_line(m: MessageView) -> Seq<char> {
    serialize_msg(m) + crlf()
}

/// A single delivery of one line to one session.
pub open spec fn to_one(id: u128, line: Seq<char>) -> Seq<DeliveryView> {
    seq![DeliveryView { to: id, line }]
}

/// What one command changes and sends: the session list, the channel list,
/// the deliveries in order, and whether the connection is to close.
#[verifier::ext_equal]
pub struct StepResult {
    pub users: Seq<UserView>,
    pub channels: Seq<Seq<char>>,
    pub out: Seq<DeliveryView>,
    pub quit: bool,
}

/// While a session is unregistered, only NICK, USER and QUIT are accepted.
pub open spec fn gate_passes(registered: bool, c: Command) -> bool {
    registered || c == Command::User || c == Command::Nick || c == Command::Quit
}

/// USER: stores the username, unless it is missing or the session is
/// already registered.
pub open spec fn step_user(
    users: Seq<UserView>,
    i: int,
    id: u128,
    m: MessageView,
    sp: Seq<char>,
) -> (Seq<UserView>, Seq<DeliveryView>) {
    if m.params.len() == 0 {
        (
            users,
            to_one(
                id,
                resp_line(
                    sp,
                    ReplyCode::ERR_NONICKNAMEGIVEN.spec_code(),
                    seq!["No nickname was given."@],
                ),
            ),
        )
    } else if users[i].is_registered {
        (
            users,
            to_one(
                id,
                resp_line(
                    sp,
                    ReplyCode::ERR_ALREADYREGISTRED.spec_code(),
                    seq!["Cannot send USER message since the client is already registered."@],
                ),
            ),
        )
    } else {
        (users.update(i, UserView { username: Some(m.params[0]), ..users[i] }), Seq::empty())
    }
}

/// NICK: stores the nickname unless it is missing or bound to a different
/// session; a registered session's rename is broadcast to every session,
/// the sender included.
pub open spec fn step_nick(
    users: Seq<UserView>,
    i: int,
    id: u128,
    m: MessageView,
    sp: Seq<char>,
) -> (Seq<UserView>, Seq<DeliveryView>) {
    if m.params.len() == 0 {
        (
            users,
            to_one(
                id,
                resp_line(
                    sp,
                    ReplyCode::ERR_NONICKNAMEGIVEN.spec_code(),
                    seq!["No nickname was given."@],
                ),
            ),
        )
    } else {
        let n = m.params[0];
        let k = first_with_nick(users, n);
        if k < users.len() && users[k].id != id {
            (
                users,
                to_one(
                    id,
                    resp_line(
                        sp,
                        ReplyCode::ERR_NICKNAMEINUSE.spec_code(),
                        seq!["Nickname is already in use."@],
                    ),
                ),
            )
        } else {
            let users1 = users.update(i, UserView { nickname: Some(n), ..users[i] });
            if users[i].is_registered {
                (users1, route_all(users1, msg_line(m)))
            } else {
                (users1, Seq::empty())
            }
        }
    }
}

/// AWAY: toggles the away flag and acknowledges the new state.
pub open spec fn step_away(users: Seq<UserView>, i: int, id: u128, sp: Seq<char>) -> (
    Seq<UserView>,
    Seq<DeliveryView>,
) {
    let was = users[i].is_away;
    let users1 = users.update(i, UserView { is_away: !was, ..users[i] });
    if !was {
        (
            users1,
            to_one(
                id,
                resp_line(sp, ReplyCode::RPL_NOWAWAY.spec_code(), seq!["You are now away."@]),
            ),
        )
    } else {
        (
            users1,
            to_one(
                id,
                resp_line(sp, ReplyCode::RPL_UNAWAY.spec_code(), seq!["You are no longer away."@]),
            ),
        )
    }
}

/// PRIVMSG: forwards the message to the named session, or to every member
/// of the named channel; an away recipient is announced to the sender
/// before the message is still forwarded.
pub open spec fn step_privmsg(
    users: Seq<UserView>,
    channels: Seq<Seq<char>>,
    id: u128,
    m: MessageView,
    sp: Seq<char>,
) -> Seq<DeliveryView> {
    if m.params.len() != 2 {
        to_one(
            id,
            resp_line(
                sp,
                ReplyCode::ERR_NORECIPIENT.spec_code(),
                seq!["No recipient for the message was given."@],
            ),
        )
    } else {
        let recipient = m.params[0];
        if !(recipient.len() > 0 && recipient[0] == '#') {
            let k = first_with_nick(users, recipient);
            if k < users.len() {
                let fwd = seq![DeliveryView { to: users[k].id, line: msg_line(m) }];
                if users[k].is_away {
                    to_one(
                        id,
                        resp_line(
                            sp,
                            ReplyCode::RPL_AWAY.spec_code(),
                            seq![recipient, "The recipient is marked as away."@],
                        ),
                    ) + fwd
                } else {
                    fwd
                }
            } else {
                to_one(
                    id,
                    resp_line(
                        sp,
                        ReplyCode::ERR_NOSUCHNICK.spec_code(),
                        seq!["The given nick was not found."@],
                    ),
                )
            }
        } else {
            if has_chan(channels, recipient) {
                route_channel(users, recipient, msg_line(m))
            } else {
                to_one(
                    id,
                    resp_line(
                        sp,
                        ReplyCode::ERR_NOSUCHCHANNEL.spec_code(),
                        seq!["The given channel was not found."@],
                    ),
                )
            }
        }
    }
}

/// QUIT: acknowledges the quitting session; a registered session's leaving
/// is broadcast to every other session.
pub open spec fn step_quit(
    users: Seq<UserView>,
    i: int,
    id: u128,
    m: MessageView,
    sp: Seq<char>,
) -> Seq<DeliveryView> {
    let ack = msg_line(
        MessageView { prefix: sp, command: Command::Error, params: seq!["User disconnected."@] },
    );
    if users[i].is_registered {
        to_one(id, ack) + route_except(users, id, msg_line(m))
    } else {
        to_one(id, ack)
    }
}

/// JOIN: creates the channel when needed and makes it the session's
/// current channel.
pub open spec fn step_join(
    users: Seq<UserView>,
    channels: Seq<Seq<char>>,
    i: int,
    id: u128,
    m: MessageView,
    sp: Seq<char>,
) -> (Seq<UserView>, Seq<Seq<char>>, Seq<DeliveryView>) {
    if m.params.len() == 0 {
        (
            users,
            channels,
            to_one(
                id,
                resp_line(
                    sp,
                    ReplyCode::ERR_NEEDMOREPARAMS.spec_code(),
                    seq!["Specify which channel to join."@],
                ),
            ),
        )
    } else {
        let name = m.params[0];
        let channels1 = if has_chan(channels, name) {
            channels
        } else {
            channels.push(name)
        };
        (users.update(i, UserView { channel: Some(name), ..users[i] }), channels1, Seq::empty())
    }
}

/// PART: clears the session's current channel; the named channel must
/// exist.
pub open spec fn step_part(
    users: Seq<UserView>,
    channels: Seq<Seq<char>>,
    i: int,
    id: u128,
    m: MessageView,
    sp: Seq<char>,
) -> (Seq<UserView>, Seq<DeliveryView>) {
    if m.params.len() == 0 {
        (
            users,
            to_one(
                id,
                resp_line(
                    sp,
                    ReplyCode::ERR_NEEDMOREPARAMS.spec_code(),
                    seq!["Specify which channel to part."@],
                ),
            ),
        )
    } else if has_chan(channels, m.params[0]) {
        (users.update(i, UserView { channel: None, ..users[i] }), Seq::empty())
    } else {
        (
            users,
            to_one(
                id,
                resp_line(
                    sp,
                    ReplyCode::ERR_NOSUCHCHANNEL.spec_code(),
                    seq!["The given channel was not found."@],
                ),
            ),
        )
    }
}

/// The welcome sent to a session the instant it becomes registered.
pub open spec fn welcome_line(u: UserView) -> Seq<char> {
    resp_line(
        prefix_or_empty(u),
        ReplyCode::RPL_WELCOME.spec_code(),
        seq![
            match u.nickname {
                Some(n) => n,
                None => Seq::empty(),
            },
            "Welcome to the Internet Relay Network "@ + prefix_or_empty(u),
        ],
    )
}

/// Evaluated after every processed command: the session becomes registered
/// the instant both nickname and username are set, and is then welcomed.
/// Registration fires at most once, since the flag never reverts.
pub open spec fn apply_welcome(r: StepResult, i: int, id: u128) -> StepResult {
    let u = r.users[i];
    if !u.is_registered && prefix_of(u) is Some {
        StepResult {
            users: r.users.update(i, UserView { is_registered: true, ..u }),
            channels: r.channels,
            out: r.out + to_one(id, welcome_line(u)),
            quit: false,
        }
    } else {
        r
    }
}

/// One step of the protocol state machine: what handling one parsed
/// message from the session with `id` does to the registries, what lines
/// go out to whom and in what order, and whether the connection closes.
/// `sp` is the server's own identity prefix.
pub open spec fn step(
    users: Seq<UserView>,
    channels: Seq<Seq<char>>,
    id: u128,
    m: MessageView,
    sp: Seq<char>,
) -> StepResult {
    let i = idx_of_id(users, id);
    let u = users[i];
    let m1 = MessageView { prefix: prefix_or_empty(u), ..m };
    if !gate_passes(u.is_registered, m.command) {
        StepResult {
            users,
            channels,
            out: to_one(
                id,
                resp_line(
                    sp,
                    ReplyCode::ERR_NOTREGISTERED.spec_code(),
                    seq!["You have not registered."@],
                ),
            ),
            quit: false,
        }
    } else {
        let r0 = match m.command {
            Command::User => {
                let s = step_user(users, i, id, m1, sp);
                StepResult { users: s.0, channels, out: s.1, quit: false }
            },
            Command::Nick => {
                let s = step_nick(users, i, id, m1, sp);
                StepResult { users: s.0, channels, out: s.1, quit: false }
            },
            Command::Away => {
                let s = step_away(users, i, id, sp);
                StepResult { users: s.0, channels, out: s.1, quit: false }
            },
            Command::PrivMsg => StepResult {
                users,
                channels,
                out: step_privmsg(users, channels, id, m1, sp),
                quit: false,
            },
            Command::Quit => StepResult {
                users,
                channels,
                out: step_quit(users, i, id, m1, sp),
                quit: true,
            },
            Command::Unknown => StepResult {
                users,
                channels,
                out: to_one(
                    id,
                    resp_line(
                        sp,
                        ReplyCode::ERR_UNKNOWNCOMMAND.spec_code(),
                        seq!["Unknown command."@],
                    ),
                ),
                quit: false,
            },
            Command::Join => {
                let s = step_join(users, channels, i, id, m1, sp);
                StepResult { users: s.0, channels: s.1, out: s.2, quit: false }
            },
            Command::Part => {
                let s = step_part(users, channels, i, id, m1, sp);
                StepResult { users: s.0, channels, out: s.1, quit: false }
            },
            Command::Kick | Command::List | Command::Error => StepResult {
                users,
                channels,
                out: to_one(id, msg_line(m1)),
                quit: false,
            },
        };
        if r0.quit {
            r0
        } else {
            apply_welcome(r0, i, id)
        }
    }
}

// ---------------------------------------------------------------------------
// Preservation of the registries' invariants
// ---------------------------------------------------------------------------
/// Replacing one session's record preserves well-formedness as long as the
/// id is kept, the registered flag stays consistent, and a changed
/// nickname is held by no other session.
proof fn lemma_wf_after_update(users: Seq<UserView>, i: int, u2: UserView)
    requires
        wf_users(users),
        0 <= i < users.len(),
        u2.id == users[i].id,
        u2.is_registered <==> (u2.nickname is Some && u2.username is Some),
        u2.nickname == users[i].nickname || (forall|j: int|
            0 <= j < users.len() && j != i ==> users[j].nickname != u2.nickname),
    ensures
        wf_users(users.update(i, u2)),
{
    let users1 = users.update(i, u2);
    assert forall|a: int, b: int| 0 <= a < b < users1.len() implies (#[trigger] users1[a]).id != (
    #[trigger] users1[b]).id by {
        assert(users1[a].id == users[a].id);
        assert(users1[b].id == users[b].id);
        assert(users[a].id != users[b].id);
    }
    assert forall|a: int, b: int|
        0 <= a < b < users1.len() && (#[trigger] users1[a]).nickname is Some && (
        #[trigger] users1[b]).nickname is Some implies users1[a].nickname
        != users1[b].nickname by {
        if a != i && b != i {
            assert(users1[a] == users[a]);
            assert(users1[b] == users[b]);
        } else if a == i {
            assert(users1[b] == users[b]);
            if u2.nickname == users[i].nickname {
                assert(users[i].nickname != users[b].nickname);
            }
        } else {
            assert(users1[a] == users[a]);
            if u2.nickname == users[i].nickname {
                assert(users[a].nickname != users[i].nickname);
            }
        }
    }
    assert forall|k: int| 0 <= k < users1.len() implies ((#[trigger] users1[k]).is_registered <==> (
    users1[k].nickname is Some && users1[k].username is Some)) by {
        if k != i {
            assert(users1[k] == users[k]);
        }
    }
}

/// The welcome check does nothing for a session whose registered flag
/// already agrees with its nickname and username.
proof fn lemma_welcome_noop(r: StepResult, i: int, id: u128)
    requires
        0 <= i < r.users.len(),
        r.users[i].is_registered <==> (r.users[i].nickname is Some && r.users[i].username
            is Some),
    ensures
        apply_welcome(r, i, id) == r,
{
    let u = r.users[i];
    if !u.is_registered {
        assert(prefix_of(u) is None);
    }
}

/// One step never breaks the registries' invariants. Moreover: the session
/// list keeps its length, every session keeps its id, no session but the
/// acting one changes, and a registered session never reverts to
/// unregistered.
pub proof fn lemma_step_preserves_wf(
    users: Seq<UserView>,
    channels: Seq<Seq<char>>,
    id: u128,
    m: MessageView,
    sp: Seq<char>,
)
    requires
        wf_users(users),
        has_id(users, id),
    ensures
        ({
            let s = step(users, channels, id, m, sp);
            let i = idx_of_id(users, id);
            &&& wf_users(s.users)
            &&& s.users.len() == users.len()
            &&& forall|k: int| 0 <= k < users.len() && k != i ==> s.users[k] == users[k]
            &&& forall|k: int| 0 <= k < users.len() ==> (#[trigger] s.users[k]).id == users[k].id
            &&& forall|k: int|
                0 <= k < users.len() && users[k].is_registered ==> (
                #[trigger] s.users[k]).is_registered
            &&& (wf_chans(channels) ==> wf_chans(s.channels))
        }),
{
    let s = step(users, channels, id, m, sp);
    let i = idx_of_id(users, id);
    lemma_idx_of_id(users, id);
    let u = users[i];
    let m1 = MessageView { prefix: prefix_or_empty(u), ..m };
    if gate_passes(u.is_registered, m.command) {
        match m.command {
            Command::User => {
                if m1.params.len() == 0 || u.is_registered {
                    let r0 = StepResult { users, channels, out: s.out, quit: false };
                    lemma_welcome_noop(r0, i, id);
                } else {
                    let u1 = UserView { username: Some(m1.params[0]), ..u };
                    let users1 = users.update(i, u1);
                    let r0 = StepResult { users: users1, channels, out: Seq::empty(), quit: false };
                    if u1.nickname is Some {
                        assert(prefix_of(u1) is Some);
                        let u2 = UserView { is_registered: true, ..u1 };
                        assert(s.users =~= users.update(i, u2));
                        lemma_wf_after_update(users, i, u2);
                    } else {
                        assert(prefix_of(u1) is None);
                        assert(s.users =~= users1);
                        lemma_wf_after_update(users, i, u1);
                    }
                }
            },
            Command::Nick => {
                if m1.params.len() == 0 {
                    let r0 = StepResult { users, channels, out: s.out, quit: false };
                    lemma_welcome_noop(r0, i, id);
                } else {
                    let n = m1.params[0];
                    let k = first_with_nick(users, n);
                    lemma_first_with_nick(users, n);
                    if k < users.len() && users[k].id != id {
                        let r0 = StepResult { users, channels, out: s.out, quit: false };
                        lemma_welcome_noop(r0, i, id);
                    } else {
                        let u1 = UserView { nickname: Some(n), ..u };
                        let users1 = users.update(i, u1);
                        assert(u1.nickname == users[i].nickname || (forall|j: int|
                            0 <= j < users.len() && j != i ==> users[j].nickname
                                != u1.nickname)) by {
                            if k < users.len() {
                                assert(users[k].id == id);
                                assert(users[i].id == id);
                                if k != i {
                                    assert(users[k].id != users[i].id);
                                }
                                assert(k == i);
                            } else {
                                assert(forall|j: int|
                                    0 <= j < users.len() ==> users[j].nickname != Some(n));
                            }
                        }
                        if !u.is_registered && u1.username is Some {
                            assert(prefix_of(u1) is Some);
                            let u2 = UserView { is_registered: true, ..u1 };
                            assert(s.users =~= users.update(i, u2));
                            lemma_wf_after_update(users, i, u2);
                        } else if !u.is_registered {
                            assert(prefix_of(u1) is None);
                            assert(s.users =~= users1);
                            lemma_wf_after_update(users, i, u1);
                        } else {
                            assert(u1.is_registered);
                            assert(s.users =~= users1);
                            lemma_wf_after_update(users, i, u1);
                        }
                    }
                }
            },
            Command::Away => {
                let u1 = UserView { is_away: !u.is_away, ..u };
                assert(u.is_registered);
                assert(s.users =~= users.update(i, u1));
                lemma_wf_after_update(users, i, u1);
            },
            Command::PrivMsg => {
                let r0 = StepResult {
                    users,
                    channels,
                    out: step_privmsg(users, channels, id, m1, sp),
                    quit: false,
                };
                lemma_welcome_noop(r0, i, id);
            },
            Command::Quit => {},
            Command::Unknown => {
                let r0 = StepResult { users, channels, out: s.out, quit: false };
                lemma_welcome_noop(r0, i, id);
            },
            Command::Join => {
                if m1.params.len() == 0 {
                    let r0 = StepResult { users, channels, out: s.out, quit: false };
                    lemma_welcome_noop(r0, i, id);
                } else {
                    let name = m1.params[0];
                    let u1 = UserView { channel: Some(name), ..u };
                    assert(u.is_registered);
                    assert(s.users =~= users.update(i, u1));
                    lemma_wf_after_update(users, i, u1);
                    if !has_chan(channels, name) {
                        assert(wf_chans(channels) ==> wf_chans(channels.push(name))) by {
                            if wf_chans(channels) {
                                let chans1 = channels.push(name);
                                assert forall|a: int, b: int|
                                    0 <= a < b < chans1.len() implies chans1[a] != chans1[b] by {
                                    if b < channels.len() {
                                    } else {
                                        assert(chans1[b] == name);
                                        assert(chans1[a] == channels[a]);
                                    }
                                }
                            }
                        }
                    }
                }
            },
            Command::Part => {
                if m1.params.len() == 0 || !has_chan(channels, m1.params[0]) {
                    let r0 = StepResult { users, channels, out: s.out, quit: false };
                    lemma_welcome_noop(r0, i, id);
                } else {
                    let u1 = UserView { channel: None, ..u };
                    assert(u.is_registered);
                    assert(s.users =~= users.update(i, u1));
                    lemma_wf_after_update(users, i, u1);
                }
            },
            Command::Kick | Command::List | Command::Error => {
                let r0 = StepResult { users, channels, out: to_one(id, msg_line(m1)), quit: false };
                lemma_welcome_noop(r0, i, id);
            },
        }
    }
}

// ---------------------------------------------------------------------------
// The executable state machine
// ---------------------------------------------------------------------------
/// One error or acknowledgement line, addressed to its originating
/// session.
fn respond(server_prefix: &str, code: ReplyCode, text: &str, to: u128) -> (r: Vec<Delivery>)
    ensures
        r.deep_view() == to_one(to, resp_line(server_prefix@, code.spec_code(), seq![text@])),
{
    let mut params: Vec<String> = Vec::new();
    params.push(text.to_owned());
    let resp = Response::new(server_prefix, code, params);
    let mut out: Vec<Delivery> = Vec::new();
    out.push(Delivery { to, line: resp.to_irc_message() });
    proof {
        assert(resp@.params =~= seq![text@]);
        assert(out.deep_view() =~= to_one(
            to,
            resp_line(server_prefix@, code.spec_code(), seq![text@]),
        ));
    }
    out
}

impl ClientTable {
    fn set_username(&mut self, i: usize, name: String)
        requires
            i < old(self)@.len(),
        ensures
            final(self)@ == old(self)@.update(
                i as int,
                UserView { username: Some(name@), ..old(self)@[i as int] },
            ),
    {
        let ghost nv = name@;
        let u = self.users.remove(i);
        let u2 = User { username: Some(name), ..u };
        self.users.insert(i, u2);
        proof {
            assert(self@ =~= old(self)@.update(
                i as int,
                UserView { username: Some(nv), ..old(self)@[i as int] },
            ));
        }
    }

    fn set_nickname(&mut self, i: usize, name: String)
        requires
            i < old(self)@.len(),
        ensures
            final(self)@ == old(self)@.update(
                i as int,
                UserView { nickname: Some(name@), ..old(self)@[i as int] },
            ),
    {
        let ghost nv = name@;
        let u = self.users.remove(i);
        let u2 = User { nickname: Some(name), ..u };
        self.users.insert(i, u2);
        proof {
            assert(self@ =~= old(self)@.update(
                i as int,
                UserView { nickname: Some(nv), ..old(self)@[i as int] },
            ));
        }
    }

    fn set_away(&mut self, i: usize, away: bool)
        requires
            i < old(self)@.len(),
        ensures
            final(self)@ == old(self)@.update(
                i as int,
                UserView { is_away: away, ..old(self)@[i as int] },
            ),
    {
        let u = self.users.remove(i);
        let u2 = User { is_away: away, ..u };
        self.users.insert(i, u2);
        proof {
            assert(self@ =~= old(self)@.update(
                i as int,
                UserView { is_away: away, ..old(self)@[i as int] },
            ));
        }
    }

    fn set_channel(&mut self, i: usize, channel: Option<String>)
        requires
            i < old(self)@.len(),
        ensures
            final(self)@ == old(self)@.update(
                i as int,
                UserView { channel: channel.deep_view(), ..old(self)@[i as int] },
            ),
    {
        let ghost cv = channel.deep_view();
        let u = self.users.remove(i);
        let u2 = User { channel, ..u };
        self.users.insert(i, u2);
        proof {
            assert(self@ =~= old(self)@.update(
                i as int,
                UserView { channel: cv, ..old(self)@[i as int] },
            ));
        }
    }

    fn set_registered(&mut self, i: usize)
        requires
            i < old(self)@.len(),
        ensures
            final(self)@ == old(self)@.update(
                i as int,
                UserView { is_registered: true, ..old(self)@[i as int] },
            ),
    {
        let u = self.users.remove(i);
        let u2 = User { is_registered: true, ..u };
        self.users.insert(i, u2);
        proof {
            assert(self@ =~= old(self)@.update(
                i as int,
                UserView { is_registered: true, ..old(self)@[i as int] },
            ));
        }
    }
}

/// USER: stores the username, unless it is missing or the session is
/// already registered.
pub fn handle_user(message: Message, users: &mut ClientTable, user_id: u128, server_prefix: &str) -> (r:
    Vec<Delivery>)
    requires
        old(users).wf(),
        has_id(old(users)@, user_id),
    ensures
        ({
            let s = step_user(
                old(users)@,
                idx_of_id(old(users)@, user_id),
                user_id,
                message@,
                server_prefix@,
            );
            final(users)@ == s.0 && r.deep_view() == s.1
        }),
{
    proof {
        lemma_idx_of_id(users@, user_id);
    }
    let idx = users.index_of(user_id);
    if message.params.len() == 0 {
        respond(server_prefix, ReplyCode::ERR_NONICKNAMEGIVEN, "No nickname was given.", user_id)
    } else if users.user_at(idx).is_registered {
        respond(
            server_prefix,
            ReplyCode::ERR_ALREADYREGISTRED,
            "Cannot send USER message since the client is already registered.",
            user_id,
        )
    } else {
        let name = message.params[0].clone();
        users.set_username(idx, name);
        let out: Vec<Delivery> = Vec::new();
        proof {
            assert(out.deep_view() =~= Seq::<DeliveryView>::empty());
        }
        out
    }
}

/// NICK: stores the nickname unless it is missing or bound to a different
/// session; a registered session's rename is broadcast to every session,
/// the sender included.
pub fn handle_nick(message: Message, users: &mut ClientTable, user_id: u128, server_prefix: &str) -> (r:
    Vec<Delivery>)
    requires
        old(users).wf(),
        has_id(old(users)@, user_id),
    ensures
        ({
            let s = step_nick(
                old(users)@,
                idx_of_id(old(users)@, user_id),
                user_id,
                message@,
                server_prefix@,
            );
            final(users)@ == s.0 && r.deep_view() == s.1
        }),
{
    proof {
        lemma_idx_of_id(users@, user_id);
    }
    let idx = users.index_of(user_id);
    if message.params.len() == 0 {
        return respond(
            server_prefix,
            ReplyCode::ERR_NONICKNAMEGIVEN,
            "No nickname was given.",
            user_id,
        );
    }
    let nickname = message.params[0].clone();
    proof {
        lemma_first_with_nick(users@, nickname@);
    }
    let in_use_by_other = match get_nickname_id(nickname.as_str(), users) {
        Some(other) => other != user_id,
        None => false,
    };
    if in_use_by_other {
        return respond(
            server_prefix,
            ReplyCode::ERR_NICKNAMEINUSE,
            "Nickname is already in use.",
            user_id,
        );
    }
    let was_registered = users.user_at(idx).is_registered;
    users.set_nickname(idx, nickname);
    if was_registered {
        let out = broadcast_to_all(&message, users);
        out
    } else {
        let out: Vec<Delivery> = Vec::new();
        proof {
            assert(out.deep_view() =~= Seq::<DeliveryView>::empty());
        }
        out
    }
}

/// PRIVMSG: forwards the message to the named session or channel.
fn handle_privmsg(
    message: Message,
    users: &ClientTable,
    channels: &ChannelTable,
    user_id: u128,
    server_prefix: &str,
) -> (r: Vec<Delivery>)
    requires
        wf_users(users@),
    ensures
        r.deep_view() == step_privmsg(users@, channels@, user_id, message@, server_prefix@),
{
    if message.params.len() != 2 {
        return respond(
            server_prefix,
            ReplyCode::ERR_NORECIPIENT,
            "No recipient for the message was given.",
            user_id,
        );
    }
    let recipient = message.params[0].clone();
    let is_channel = recipient.as_str().unicode_len() > 0 && recipient.as_str().get_char(0) == '#';
    if !is_channel {
        proof {
            lemma_first_with_nick(users@, recipient@);
        }
        match get_nickname_id(recipient.as_str(), users) {
            Some(target) => {
                proof {
                    lemma_idx_of_id(users@, target);
                    let k = first_with_nick(users@, recipient@);
                    let t = idx_of_id(users@, target);
                    assert(users@[k].id == target);
                    if t == users@.len() {
                        assert(users@[k].id != target);
                    }
                    if t != k {
                        assert(users@[t].id == users@[k].id);
                        assert(false);
                    }
                }
                let tidx = users.index_of(target);
                let is_away = users.user_at(tidx).is_away;
                let mut outv: Vec<Delivery> = Vec::new();
                if is_away {
                    let mut params: Vec<String> = Vec::new();
                    params.push(recipient.clone());
                    params.push(String::from_str("The recipient is marked as away."));
                    let resp = Response::new(server_prefix, ReplyCode::RPL_AWAY, params);
                    outv.push(Delivery { to: user_id, line: resp.to_irc_message() });
                    proof {
                        assert(resp@.params =~= seq![
                            recipient@,
                            "The recipient is marked as away."@,
                        ]);
                    }
                }
                outv.push(Delivery { to: target, line: message.to_irc_message() });
                proof {
                    assert(outv.deep_view() =~= step_privmsg(
                        users@,
                        channels@,
                        user_id,
                        message@,
                        server_prefix@,
                    ));
                }
                outv
            },
            None => respond(
                server_prefix,
                ReplyCode::ERR_NOSUCHNICK,
                "The given nick was not found.",
                user_id,
            ),
        }
    } else {
        if channels.contains(recipient.as_str()) {
            let chan = Channel::new(recipient.as_str());
            send_to_channel(&message, users, &chan)
        } else {
            respond(
                server_prefix,
                ReplyCode::ERR_NOSUCHCHANNEL,
                "The given channel was not found.",
                user_id,
            )
        }
    }
}

/// Interprets one parsed message from the session with `user_id` against
/// the registries: exactly the `step` transition. Returns the lines to
/// deliver, in order, and whether the connection is to close.
pub fn handle_message(
    message: Message,
    users: &mut ClientTable,
    channels: &mut ChannelTable,
    user_id: u128,
    server_prefix: &str,
) -> (r: (Vec<Delivery>, CommandResponse))
    requires
        old(users).wf(),
        old(channels).wf(),
        has_id(old(users)@, user_id),
    ensures
        ({
            let s = step(old(users)@, old(channels)@, user_id, message@, server_prefix@);
            &&& final(users)@ == s.users
            &&& final(channels)@ == s.channels
            &&& r.0.deep_view() == s.out
            &&& (r.1 == CommandResponse::Quit) == s.quit
        }),
        final(users).wf(),
        final(channels).wf(),
{
    let ghost users0 = users@;
    let ghost chans0 = channels@;
    let ghost m0 = message@;
    let ghost s = step(users0, chans0, user_id, m0, server_prefix@);
    proof {
        lemma_idx_of_id(users@, user_id);
        lemma_step_preserves_wf(users0, chans0, user_id, m0, server_prefix@);
    }
    let idx = users.index_of(user_id);
    let ghost i = idx as int;

    // Resolve the message's prefix to the sender's identity, for the cases
    // where the message is forwarded to other sessions.
    let mut message = message;
    message.prefix = match users.user_at(idx).prefix() {
        Some(p) => p,
        None => String::new(),
    };
    let ghost m1 = message@;
    proof {
        assert(m1 =~= (MessageView { prefix: prefix_or_empty(users0[i]), ..m0 }));
    }

    // The registration gate: an unregistered session may only identify
    // itself or leave.
    let registered = users.user_at(idx).is_registered;
    if !registered && !(matches!(
        message.command,
        Command::User | Command::Nick | Command::Quit,
    )) {
        let out = respond(
            server_prefix,
            ReplyCode::ERR_NOTREGISTERED,
            "You have not registered.",
            user_id,
        );
        proof {
            assert(!gate_passes(users0[i].is_registered, m0.command));
            assert(out.deep_view() =~= s.out);
        }
        return (out, CommandResponse::Continue);
    }

    let mut out: Vec<Delivery>;
    match message.command {
        Command::User => {
            out = handle_user(message, users, user_id, server_prefix);
        },
        Command::Nick => {
            out = handle_nick(message, users, user_id, server_prefix);
        },
        Command::Away => {
            let was = users.user_at(idx).is_away;
            users.set_away(idx, !was);
            if !was {
                out = respond(server_prefix, ReplyCode::RPL_NOWAWAY, "You are now away.", user_id);
            } else {
                out = respond(
                    server_prefix,
                    ReplyCode::RPL_UNAWAY,
                    "You are no longer away.",
                    user_id,
                );
            }
        },
        Command::PrivMsg => {
            out = handle_privmsg(message, users, channels, user_id, server_prefix);
        },
        Command::Quit => {
            let mut params: Vec<String> = Vec::new();
            params.push(String::from_str("User disconnected."));
            let ack = Message::new(server_prefix, Command::Error, params);
            let mut outq: Vec<Delivery> = Vec::new();
            outq.push(Delivery { to: user_id, line: ack.to_irc_message() });
            proof {
                assert(ack@ =~= (MessageView {
                    prefix: server_prefix@,
                    command: Command::Error,
                    params: seq!["User disconnected."@],
                }));
            }
            if registered {
                let mut rest = broadcast_message(&message, users, user_id);
                outq.append(&mut rest);
            }
            proof {
                assert(outq.deep_view() =~= s.out);
            }
            return (outq, CommandResponse::Quit);
        },
        Command::Unknown => {
            out = respond(server_prefix, ReplyCode::ERR_UNKNOWNCOMMAND, "Unknown command.", user_id);
        },
        Command::Join => {
            if message.params.len() == 0 {
                out = respond(
                    server_prefix,
                    ReplyCode::ERR_NEEDMOREPARAMS,
                    "Specify which channel to join.",
                    user_id,
                );
            } else {
                let name = message.params[0].clone();
                channels.get_or_create(name.as_str());
                users.set_channel(idx, Some(name));
                out = Vec::new();
                proof {
                    assert(out.deep_view() =~= Seq::<DeliveryView>::empty());
                }
            }
        },
        Command::Part => {
            if message.params.len() == 0 {
                out = respond(
                    server_prefix,
                    ReplyCode::ERR_NEEDMOREPARAMS,
                    "Specify which channel to part.",
                    user_id,
                );
            } else if channels.contains(message.params[0].as_str()) {
                users.set_channel(idx, None);
                out = Vec::new();
                proof {
                    assert(out.deep_view() =~= Seq::<DeliveryView>::empty());
                }
            } else {
                out = respond(
                    server_prefix,
                    ReplyCode::ERR_NOSUCHCHANNEL,
                    "The given channel was not found.",
                    user_id,
                );
            }
        },
        Command::Kick | Command::List | Command::Error => {
            let mut oute: Vec<Delivery> = Vec::new();
            oute.push(Delivery { to: user_id, line: message.to_irc_message() });
            proof {
                assert(oute.deep_view() =~= to_one(user_id, msg_line(m1)));
            }
            out = oute;
        },
    }

    // The state before the registration check, as the step function sees
    // it.
    let ghost r0 = StepResult {
        users: users@,
        channels: channels@,
        out: out.deep_view(),
        quit: false,
    };
    proof {
        assert(s =~~= apply_welcome(r0, i, user_id));
    }

    // The registration check, evaluated after every processed command: the
    // session becomes registered the instant both nickname and username
    // are set, and is welcomed once.
    if !users.user_at(idx).is_registered {
        let maybe_prefix = users.user_at(idx).prefix();
        match maybe_prefix {
            Some(p) => {
                let nick = match &users.user_at(idx).nickname {
                    Some(n) => n.clone(),
                    None => String::new(),
                };
                let mut text = String::from_str("Welcome to the Internet Relay Network ");
                text.append(p.as_str());
                let mut wparams: Vec<String> = Vec::new();
                wparams.push(nick);
                wparams.push(text);
                let resp = Response::new(p.as_str(), ReplyCode::RPL_WELCOME, wparams);
                let d = Delivery { to: user_id, line: resp.to_irc_message() };
                users.set_registered(idx);
                out.push(d);
                proof {
                    let uu = r0.users[i];
                    assert(p@ == prefix_or_empty(uu));
                    assert(text@ == "Welcome to the Internet Relay Network "@ + prefix_or_empty(
                        uu,
                    ));
                    assert(nick@ == match uu.nickname {
                        Some(n) => n,
                        None => Seq::<char>::empty(),
                    });
                    assert(resp@.params =~= seq![
                        match uu.nickname {
                            Some(n) => n,
                            None => Seq::<char>::empty(),
                        },
                        "Welcome to the Internet Relay Network "@ + prefix_or_empty(uu),
                    ]);
                    assert(resp@ =~= (ResponseView {
                        prefix: prefix_or_empty(uu),
                        code: ReplyCode::RPL_WELCOME.spec_code(),
                        params: seq![
                            match uu.nickname {
                                Some(n) => n,
                                None => Seq::<char>::empty(),
                            },
                            "Welcome to the Internet Relay Network "@ + prefix_or_empty(uu),
                        ],
                    }));
                    assert(d@.line =~= welcome_line(r0.users[i]));
                    assert(out.deep_view() =~= r0.out + to_one(
                        user_id,
                        welcome_line(r0.users[i]),
                    ));
                    assert(users@ =~= r0.users.update(
                        i,
                        UserView { is_registered: true, ..r0.users[i] },
                    ));
                }
            },
            None => {},
        }
    }
    proof {
        assert(users@ =~= s.users);
        assert(channels@ =~= s.channels);
        assert(out.deep_view() =~= s.out);
    }
    (out, CommandResponse::Continue)
}

} // verus!
