//! Wire codec for the relay's line protocol: message and response types,
//! parsing of raw lines into structured messages, and serialization back
//! to wire lines.
use vstd::prelude::*;

verus! {

use vstd::string::StrSliceExecFns;
use vstd::string::StringExecFns;

/// Uppercases one ASCII letter; every other character is left alone.
/// Command words are matched case-insensitively through this map.
pub open spec fn upper_char(c: char) -> char {
    if 'a' <= c && c <= 'z' {
        ((c as u8) - 32) as char
    } else {
        c
    }
}

/// Pointwise uppercasing of a character sequence.
pub open spec fn upper_seq(s: Seq<char>) -> Seq<char> {
    Seq::new(s.len(), |i: int| upper_char(s[i]))
}

fn upper_char_exec(c: char) -> (r: char)
    ensures
        r == upper_char(c),
{
    if 'a' <= c && c <= 'z' {
        ((c as u8) - 32) as char
    } else {
        c
    }
}

/// Case-insensitive comparison of `token` against an already-uppercase
/// command word.
fn eq_upper(token: &str, name: &str) -> (b: bool)
    ensures
        b == (upper_seq(token@) == name@),
{
    let tn = token.unicode_len();
    let nn = name.unicode_len();
    if tn != nn {
        proof {
            assert(upper_seq(token@).len() != name@.len());
        }
        return false;
    }
    let mut i: usize = 0;
    while i < tn
        invariant
            i <= tn,
            tn == token@.len(),
            tn == name@.len(),
            forall|j: int| 0 <= j < i ==> upper_seq(token@)[j] == name@[j],
        decreases tn - i,
    {
        if upper_char_exec(token.get_char(i)) != name.get_char(i) {
            proof {
                assert(upper_seq(token@)[i as int] != name@[i as int]);
            }
            return false;
        }
        i += 1;
    }
    proof {
        assert(upper_seq(token@) =~= name@);
    }
    true
}

/// The closed set of commands the relay understands. Tokens outside this
/// set parse to `Unknown` rather than failing.
#[derive(Clone, Copy, Debug, PartialEq, Eq, Structural)]
pub enum Command {
    Nick,
    User,
    Join,
    Kick,
    Part,
    PrivMsg,
    List,
    Away,
    Quit,
    Error,
    Unknown,
}

/// The command denoted by a raw (case-insensitive) command token.
pub open spec fn command_of(token: Seq<char>) -> Command {
    let u = upper_seq(token);
    if u == "NICK"@ {
        Command::Nick
    } else if u == "USER"@ {
        Command::User
    } else if u == "JOIN"@ {
        Command::Join
    } else if u == "KICK"@ {
        Command::Kick
    } else if u == "PART"@ {
        Command::Part
    } else if u == "PRIVMSG"@ {
        Command::PrivMsg
    } else if u == "LIST"@ {
        Command::List
    } else if u == "AWAY"@ {
        Command::Away
    } else if u == "QUIT"@ {
        Command::Quit
    } else if u == "ERROR"@ {
        Command::Error
    } else {
        Command::Unknown
    }
}

/// The canonical wire name of a command.
pub open spec fn command_name(c: Command) -> Seq<char> {
    match c {
        Command::Nick => "NICK"@,
        Command::User => "USER"@,
        Command::Join => "JOIN"@,
        Command::Kick => "KICK"@,
        Command::Part => "PART"@,
        Command::PrivMsg => "PRIVMSG"@,
        Command::List => "LIST"@,
        Command::Away => "AWAY"@,
        Command::Quit => "QUIT"@,
        Command::Error => "ERROR"@,
        Command::Unknown => "UNKNOWN"@,
    }
}

pub fn parse_command(token: &str) -> (r: Command)
    ensures
        r == command_of(token@),
{
    if eq_upper(token, "NICK") {
        Command::Nick
    } else if eq_upper(token, "USER") {
        Command::User
    } else if eq_upper(token, "JOIN") {
        Command::Join
    } else if eq_upper(token, "KICK") {
        Command::Kick
    } else if eq_upper(token, "PART") {
        Command::Part
    } else if eq_upper(token, "PRIVMSG") {
        Command::PrivMsg
    } else if eq_upper(token, "LIST") {
        Command::List
    } else if eq_upper(token, "AWAY") {
        Command::Away
    } else if eq_upper(token, "QUIT") {
        Command::Quit
    } else if eq_upper(token, "ERROR") {
        Command::Error
    } else {
        Command::Unknown
    }
}

pub fn command_name_exec(c: Command) -> (r: &'static str)
    ensures
        r@ == command_name(c),
{
    match c {
        Command::Nick => "NICK",
        Command::User => "USER",
        Command::Join => "JOIN",
        Command::Kick => "KICK",
        Command::Part => "PART",
        Command::PrivMsg => "PRIVMSG",
        Command::List => "LIST",
        Command::Away => "AWAY",
        Command::Quit => "QUIT",
        Command::Error => "ERROR",
        Command::Unknown => "UNKNOWN",
    }
}

/// A parsed protocol unit: the sender's identity prefix (empty until the
/// server resolves it), a command, and the ordered parameter list. The
/// last parameter may contain spaces when it was introduced by the
/// trailing-parameter marker.
#[derive(Debug)]
pub struct Message {
    pub prefix: String,
    pub command: Command,
    pub params: Vec<String>,
}

/// The mathematical value of a `Message`.
#[verifier::ext_equal]
pub struct MessageView {
    pub prefix: Seq<char>,
    pub command: Command,
    pub params: Seq<Seq<char>>,
}

impl View for Message {
    type V = MessageView;

    open spec fn view(&self) -> MessageView {
        MessageView { prefix: self.prefix@, command: self.command, params: self.params.deep_view() }
    }
}

impl Message {
    pub fn new(prefix: &str, command: Command, params: Vec<String>) -> (r: Message)
        ensures
            r@ == (MessageView { prefix: prefix@, command, params: params.deep_view() }),
    {
        Message { prefix: prefix.to_owned(), command, params }
    }
}

/// Numeric reply codes, as listed by the protocol.
#[allow(non_camel_case_types)]
#[derive(Clone, Copy, Debug, PartialEq, Eq, Structural)]
pub enum ReplyCode {
    RPL_WELCOME,
    RPL_YOURHOST,
    RPL_CREATED,
    RPL_MYINFO,
    RPL_AWAY,
    RPL_UNAWAY,
    RPL_NOWAWAY,
    RPL_WHOISUSER,
    RPL_WHOISSERVER,
    RPL_WHOISOPERATOR,
    RPL_WHOISIDLE,
    RPL_ENDOFWHOIS,
    RPL_WHOISCHANNELS,
    RPL_WHOREPLY,
    RPL_ENDOFWHO,
    RPL_LIST,
    RPL_LISTEND,
    RPL_CHANNELMODEIS,
    RPL_NOTOPIC,
    RPL_TOPIC,
    RPL_NAMREPLY,
    RPL_ENDOFNAMES,
    RPL_MOTDSTART,
    RPL_MOTD,
    RPL_ENDOFMOTD,
    RPL_YOUREOPER,
    ERR_NOSUCHNICK,
    ERR_NOSUCHSERVER,
    ERR_NOSUCHCHANNEL,
    ERR_CANNOTSENDTOCHAN,
    ERR_NORECIPIENT,
    ERR_NOTEXTTOSEND,
    ERR_UNKNOWNCOMMAND,
    ERR_NOMOTD,
    ERR_NONICKNAMEGIVEN,
    ERR_NICKNAMEINUSE,
    ERR_USERNOTINCHANNEL,
    ERR_NOTONCHANNEL,
    ERR_NOTREGISTERED,
    ERR_NEEDMOREPARAMS,
    ERR_ALREADYREGISTRED,
    ERR_PASSWDMISMATCH,
    ERR_UNKNOWNMODE,
    ERR_NOPRIVILEGES,
    ERR_CHANOPRIVSNEEDED,
    ERR_UMODEUNKNOWNFLAG,
    ERR_USERSDONTMATCH,
}

impl ReplyCode {
    /// The three-digit numeric value of this reply code.
    pub open spec fn spec_code(self) -> u16 {
        match self {
            ReplyCode::RPL_WELCOME => 1,
            ReplyCode::RPL_YOURHOST => 2,
            ReplyCode::RPL_CREATED => 3,
            ReplyCode::RPL_MYINFO => 4,
            ReplyCode::RPL_AWAY => 301,
            ReplyCode::RPL_UNAWAY => 305,
            ReplyCode::RPL_NOWAWAY => 306,
            ReplyCode::RPL_WHOISUSER => 311,
            ReplyCode::RPL_WHOISSERVER => 312,
            ReplyCode::RPL_WHOISOPERATOR => 313,
            ReplyCode::RPL_WHOISIDLE => 317,
            ReplyCode::RPL_ENDOFWHOIS => 318,
            ReplyCode::RPL_WHOISCHANNELS => 319,
            ReplyCode::RPL_WHOREPLY => 352,
            ReplyCode::RPL_ENDOFWHO => 315,
            ReplyCode::RPL_LIST => 322,
            ReplyCode::RPL_LISTEND => 323,
            ReplyCode::RPL_CHANNELMODEIS => 324,
            ReplyCode::RPL_NOTOPIC => 331,
            ReplyCode::RPL_TOPIC => 332,
            ReplyCode::RPL_NAMREPLY => 353,
            ReplyCode::RPL_ENDOFNAMES => 366,
            ReplyCode::RPL_MOTDSTART => 375,
            ReplyCode::RPL_MOTD => 372,
            ReplyCode::RPL_ENDOFMOTD => 376,
            ReplyCode::RPL_YOUREOPER => 381,
            ReplyCode::ERR_NOSUCHNICK => 401,
            ReplyCode::ERR_NOSUCHSERVER => 402,
            ReplyCode::ERR_NOSUCHCHANNEL => 403,
            ReplyCode::ERR_CANNOTSENDTOCHAN => 404,
            ReplyCode::ERR_NORECIPIENT => 411,
            ReplyCode::ERR_NOTEXTTOSEND => 412,
            ReplyCode::ERR_UNKNOWNCOMMAND => 421,
            ReplyCode::ERR_NOMOTD => 422,
            ReplyCode::ERR_NONICKNAMEGIVEN => 431,
            ReplyCode::ERR_NICKNAMEINUSE => 433,
            ReplyCode::ERR_USERNOTINCHANNEL => 441,
            ReplyCode::ERR_NOTONCHANNEL => 442,
            ReplyCode::ERR_NOTREGISTERED => 451,
            ReplyCode::ERR_NEEDMOREPARAMS => 461,
            ReplyCode::ERR_ALREADYREGISTRED => 462,
            ReplyCode::ERR_PASSWDMISMATCH => 464,
            ReplyCode::ERR_UNKNOWNMODE => 472,
            ReplyCode::ERR_NOPRIVILEGES => 481,
            ReplyCode::ERR_CHANOPRIVSNEEDED => 482,
            ReplyCode::ERR_UMODEUNKNOWNFLAG => 501,
            ReplyCode::ERR_USERSDONTMATCH => 502,
        }
    }

    pub fn code(self) -> (r: u16)
        ensures
            r == self.spec_code(),
    {
        match self {
            ReplyCode::RPL_WELCOME => 1,
            ReplyCode::RPL_YOURHOST => 2,
            ReplyCode::RPL_CREATED => 3,
            ReplyCode::RPL_MYINFO => 4,
            ReplyCode::RPL_AWAY => 301,
            ReplyCode::RPL_UNAWAY => 305,
            ReplyCode::RPL_NOWAWAY => 306,
            ReplyCode::RPL_WHOISUSER => 311,
            ReplyCode::RPL_WHOISSERVER => 312,
            ReplyCode::RPL_WHOISOPERATOR => 313,
            ReplyCode::RPL_WHOISIDLE => 317,
            ReplyCode::RPL_ENDOFWHOIS => 318,
            ReplyCode::RPL_WHOISCHANNELS => 319,
            ReplyCode::RPL_WHOREPLY => 352,
            ReplyCode::RPL_ENDOFWHO => 315,
            ReplyCode::RPL_LIST => 322,
            ReplyCode::RPL_LISTEND => 323,
            ReplyCode::RPL_CHANNELMODEIS => 324,
            ReplyCode::RPL_NOTOPIC => 331,
            ReplyCode::RPL_TOPIC => 332,
            ReplyCode::RPL_NAMREPLY => 353,
            ReplyCode::RPL_ENDOFNAMES => 366,
            ReplyCode::RPL_MOTDSTART => 375,
            ReplyCode::RPL_MOTD => 372,
            ReplyCode::RPL_ENDOFMOTD => 376,
            ReplyCode::RPL_YOUREOPER => 381,
            ReplyCode::ERR_NOSUCHNICK => 401,
            ReplyCode::ERR_NOSUCHSERVER => 402,
            ReplyCode::ERR_NOSUCHCHANNEL => 403,
            ReplyCode::ERR_CANNOTSENDTOCHAN => 404,
            ReplyCode::ERR_NORECIPIENT => 411,
            ReplyCode::ERR_NOTEXTTOSEND => 412,
            ReplyCode::ERR_UNKNOWNCOMMAND => 421,
            ReplyCode::ERR_NOMOTD => 422,
            ReplyCode::ERR_NONICKNAMEGIVEN => 431,
            ReplyCode::ERR_NICKNAMEINUSE => 433,
            ReplyCode::ERR_USERNOTINCHANNEL => 441,
            ReplyCode::ERR_NOTONCHANNEL => 442,
            ReplyCode::ERR_NOTREGISTERED => 451,
            ReplyCode::ERR_NEEDMOREPARAMS => 461,
            ReplyCode::ERR_ALREADYREGISTRED => 462,
            ReplyCode::ERR_PASSWDMISMATCH => 464,
            ReplyCode::ERR_UNKNOWNMODE => 472,
            ReplyCode::ERR_NOPRIVILEGES => 481,
            ReplyCode::ERR_CHANOPRIVSNEEDED => 482,
            ReplyCode::ERR_UMODEUNKNOWNFLAG => 501,
            ReplyCode::ERR_USERSDONTMATCH => 502,
        }
    }
}

/// A server-generated reply: a prefix, a numeric code, and the reply
/// parameters (the last one is the free-text payload).
#[derive(Debug)]
pub struct Response {
    pub prefix: String,
    pub code: u16,
    pub params: Vec<String>,
}

/// The mathematical value of a `Response`.
#[verifier::ext_equal]
pub struct ResponseView {
    pub prefix: Seq<char>,
    pub code: u16,
    pub params: Seq<Seq<char>>,
}

impl View for Response {
    type V = ResponseView;

    open spec fn view(&self) -> ResponseView {
        ResponseView { prefix: self.prefix@, code: self.code, params: self.params.deep_view() }
    }
}

/// The reply sent for a line that is not a well-formed message.
pub open spec fn invalid_response_view() -> ResponseView {
    ResponseView { prefix: Seq::empty(), code: 0, params: Seq::empty() }
}

impl Response {
    pub fn new(prefix: &str, code: ReplyCode, params: Vec<String>) -> (r: Response)
        ensures
            r@ == (ResponseView { prefix: prefix@, code: code.spec_code(), params: params.deep_view() }),
    {
        Response { prefix: prefix.to_owned(), code: code.code(), params }
    }

    pub fn invalid() -> (r: Response)
        ensures
            r@ == invalid_response_view(),
    {
        let r = Response { prefix: String::new(), code: 0, params: Vec::new() };
        proof {
            assert(r@.params =~= invalid_response_view().params);
            assert(r@ =~= invalid_response_view());
        }
        r
    }
}

// ---------------------------------------------------------------------------
// Parsing
// ---------------------------------------------------------------------------
/// Index of the first space in `s`, if any.
pub open spec fn first_space(s: Seq<char>) -> Option<int>
    decreases s.len(),
{
    if s.len() == 0 {
        None
    } else if s[0] == ' ' {
        Some(0)
    } else {
        match first_space(s.drop_first()) {
            Some(i) => Some(i + 1),
            None => None,
        }
    }
}

pub proof fn lemma_first_space(s: Seq<char>)
    ensures
        match first_space(s) {
            Some(i) => 0 <= i < s.len() && s[i] == ' ' && (forall|j: int|
                0 <= j < i ==> s[j] != ' '),
            None => forall|j: int| 0 <= j < s.len() ==> s[j] != ' ',
        },
    decreases s.len(),
{
    if s.len() > 0 && s[0] != ' ' {
        let d = s.drop_first();
        lemma_first_space(d);
        match first_space(d) {
            Some(i) => {
                assert(s[i + 1] == d[i]);
                assert forall|j: int| 0 <= j < i + 1 implies s[j] != ' ' by {
                    if j > 0 {
                        assert(s[j] == d[j - 1]);
                    }
                }
            },
            None => {
                assert forall|j: int| 0 <= j < s.len() implies s[j] != ' ' by {
                    if j > 0 {
                        assert(s[j] == d[j - 1]);
                    }
                }
            },
        }
    }
}

pub proof fn lemma_first_space_at(s: Seq<char>, i: int)
    requires
        0 <= i < s.len(),
        s[i] == ' ',
        forall|j: int| 0 <= j < i ==> s[j] != ' ',
    ensures
        first_space(s) == Some(i),
    decreases i,
{
    if i > 0 {
        assert(forall|j: int| 0 <= j < s.drop_first().len() ==> s.drop_first()[j] == s[j + 1]);
        lemma_first_space_at(s.drop_first(), i - 1);
    }
}

pub proof fn lemma_first_space_none(s: Seq<char>)
    requires
        forall|j: int| 0 <= j < s.len() ==> s[j] != ' ',
    ensures
        first_space(s) is None,
    decreases s.len(),
{
    if s.len() > 0 {
        assert(forall|j: int| 0 <= j < s.drop_first().len() ==> s.drop_first()[j] == s[j + 1]);
        lemma_first_space_none(s.drop_first());
    }
}

/// Splits the text after the command token into parameters: tokens are
/// space-separated, except that a token beginning with `:` consumes the
/// remainder of the line as the final parameter.
pub open spec fn parse_params(s: Seq<char>) -> Seq<Seq<char>>
    decreases s.len(),
{
    if s.len() > 0 && s[0] == ':' {
        seq![s.subrange(1, s.len() as int)]
    } else {
        match first_space(s) {
            None => seq![s],
            Some(i) => {
                proof {
                    lemma_first_space(s);
                }
                seq![s.subrange(0, i)] + parse_params(s.subrange(i + 1, s.len() as int))
            },
        }
    }
}

/// The message denoted by a raw wire line, or `None` when the line is
/// malformed: it must begin with the `:` prefix marker and contain a
/// space-delimited, non-empty command token after the prefix.
pub open spec fn parse_spec(s: Seq<char>) -> Option<MessageView> {
    if s.len() == 0 || s[0] != ':' {
        None
    } else {
        let rest = s.subrange(1, s.len() as int);
        match first_space(rest) {
            None => None,
            Some(i) => {
                let prefix = rest.subrange(0, i);
                let t = rest.subrange(i + 1, rest.len() as int);
                match first_space(t) {
                    None => if t.len() == 0 {
                        None
                    } else {
                        Some(MessageView { prefix, command: command_of(t), params: Seq::empty() })
                    },
                    Some(j) => if j == 0 {
                        None
                    } else {
                        Some(
                            MessageView {
                                prefix,
                                command: command_of(t.subrange(0, j)),
                                params: parse_params(t.subrange(j + 1, t.len() as int)),
                            },
                        )
                    },
                }
            },
        }
    }
}

/// Scans for the first space of `s`.
pub fn find_space(s: &str) -> (r: Option<usize>)
    ensures
        match r {
            Some(i) => first_space(s@) == Some(i as int) && i < s@.len() && s@[i as int] == ' ',
            None => first_space(s@) is None,
        },
{
    let n = s.unicode_len();
    let mut i: usize = 0;
    while i < n
        invariant
            i <= n,
            n == s@.len(),
            forall|j: int| 0 <= j < i ==> s@[j] != ' ',
        decreases n - i,
    {
        if s.get_char(i) == ' ' {
            proof {
                lemma_first_space_at(s@, i as int);
            }
            return Some(i);
        }
        i += 1;
    }
    proof {
        lemma_first_space_none(s@);
    }
    None
}

/// Reads the parameter list from the text that follows the command token.
fn read_params(t: &str) -> (r: Vec<String>)
    ensures
        r.deep_view() == parse_params(t@),
    decreases t@.len(),
{
    let n = t.unicode_len();
    if n > 0 && t.get_char(0) == ':' {
        let mut v: Vec<String> = Vec::new();
        v.push(t.substring_char(1, n).to_owned());
        proof {
            assert(v.deep_view() =~= parse_params(t@));
        }
        v
    } else {
        match find_space(t) {
            None => {
                let mut v: Vec<String> = Vec::new();
                v.push(t.to_owned());
                proof {
                    assert(v.deep_view() =~= parse_params(t@));
                }
                v
            },
            Some(i) => {
                let first = t.substring_char(0, i).to_owned();
                let rest = t.substring_char(i + 1, n);
                let mut tail = read_params(rest);
                let mut v: Vec<String> = Vec::new();
                v.push(first);
                v.append(&mut tail);
                proof {
                    assert(v.deep_view() =~= parse_params(t@));
                }
                v
            },
        }
    }
}

impl Message {
    /// Parses a raw wire line. A line that does not begin with the prefix
    /// marker, or has no space-delimited command token after the prefix,
    /// is rejected with the malformed-message reply.
    pub fn from(raw_message: &str) -> (r: Result<Message, Response>)
        ensures
            match r {
                Ok(m) => parse_spec(raw_message@) == Some(m@),
                Err(e) => parse_spec(raw_message@) is None && e@ == invalid_response_view(),
            },
    {
        let n = raw_message.unicode_len();
        if n == 0 || raw_message.get_char(0) != ':' {
            return Err(Response::invalid());
        }
        let rest = raw_message.substring_char(1, n);
        match find_space(rest) {
            None => Err(Response::invalid()),
            Some(i) => {
                let rl = rest.unicode_len();
                let prefix = rest.substring_char(0, i).to_owned();
                let t = rest.substring_char(i + 1, rl);
                match find_space(t) {
                    None => {
                        if t.unicode_len() == 0 {
                            Err(Response::invalid())
                        } else {
                            let command = parse_command(t);
                            let m = Message { prefix, command, params: Vec::new() };
                            proof {
                                assert(m@.params =~= Seq::<Seq<char>>::empty());
                                assert(parse_spec(raw_message@).unwrap() =~= m@);
                            }
                            Ok(m)
                        }
                    },
                    Some(j) => {
                        if j == 0 {
                            Err(Response::invalid())
                        } else {
                            let ctok = t.substring_char(0, j);
                            let tl = t.unicode_len();
                            let tail = t.substring_char(j + 1, tl);
                            let params = read_params(tail);
                            let command = parse_command(ctok);
                            let m = Message { prefix, command, params };
                            proof {
                                assert(parse_spec(raw_message@).unwrap() =~= m@);
                            }
                            Ok(m)
                        }
                    },
                }
            },
        }
    }
}

// ---------------------------------------------------------------------------
// Serialization
// ---------------------------------------------------------------------------
/// The protocol line terminator.
pub open spec fn crlf() -> Seq<char> {
    seq!['\r', '\n']
}

/// The character for one decimal digit.
pub open spec fn digit_char(d: nat) -> char {
    if d == 0 {
        '0'
    } else if d == 1 {
        '1'
    } else if d == 2 {
        '2'
    } else if d == 3 {
        '3'
    } else if d == 4 {
        '4'
    } else if d == 5 {
        '5'
    } else if d == 6 {
        '6'
    } else if d == 7 {
        '7'
    } else if d == 8 {
        '8'
    } else {
        '9'
    }
}

/// The decimal representation of `n`, most significant digit first.
pub open spec fn dec_digits(n: nat) -> Seq<char>
    decreases n,
{
    if n < 10 {
        seq![digit_char(n)]
    } else {
        dec_digits(n / 10).push(digit_char(n % 10))
    }
}

/// The decimal representation of a reply code, zero-padded to the
/// protocol's three digits.
pub open spec fn dec3(n: nat) -> Seq<char> {
    if n < 10 {
        seq!['0', '0'] + dec_digits(n)
    } else if n < 100 {
        seq!['0'] + dec_digits(n)
    } else {
        dec_digits(n)
    }
}

/// The wire form of a parameter list: parameters are space-separated and
/// the last one carries the trailing-parameter marker, so it may contain
/// spaces.
pub open spec fn serialize_params(ps: Seq<Seq<char>>) -> Seq<char>
    decreases ps.len(),
{
    if ps.len() == 0 {
        Seq::empty()
    } else if ps.len() == 1 {
        seq![' ', ':'] + ps[0]
    } else {
        seq![' '] + ps[0] + serialize_params(ps.drop_first())
    }
}

/// The wire line of a message, without the line terminator.
pub open spec fn serialize_msg(m: MessageView) -> Seq<char> {
    seq![':'] + m.prefix + seq![' '] + command_name(m.command) + serialize_params(m.params)
}

/// The wire line of a response, without the line terminator.
pub open spec fn serialize_resp(r: ResponseView) -> Seq<char> {
    seq![':'] + r.prefix + seq![' '] + dec3(r.code as nat) + serialize_params(r.params)
}

fn digit_str(d: u16) -> (r: &'static str)
    requires
        d < 10,
    ensures
        r@ == seq![digit_char(d as nat)],
{
    proof {
        reveal_strlit("0");
        reveal_strlit("1");
        reveal_strlit("2");
        reveal_strlit("3");
        reveal_strlit("4");
        reveal_strlit("5");
        reveal_strlit("6");
        reveal_strlit("7");
        reveal_strlit("8");
        reveal_strlit("9");
    }
    let r = if d == 0 {
        "0"
    } else if d == 1 {
        "1"
    } else if d == 2 {
        "2"
    } else if d == 3 {
        "3"
    } else if d == 4 {
        "4"
    } else if d == 5 {
        "5"
    } else if d == 6 {
        "6"
    } else if d == 7 {
        "7"
    } else if d == 8 {
        "8"
    } else {
        "9"
    };
    proof {
        assert(r@ =~= seq![digit_char(d as nat)]);
    }
    r
}

fn dec_u16(n: u16) -> (r: String)
    ensures
        r@ == dec_digits(n as nat),
    decreases n,
{
    if n < 10 {
        digit_str(n).to_owned()
    } else {
        let mut s = dec_u16(n / 10);
        s.append(digit_str(n % 10));
        proof {
            assert(s@ =~= dec_digits(n as nat));
        }
        s
    }
}

fn code3(n: u16) -> (r: String)
    ensures
        r@ == dec3(n as nat),
{
    if n < 10 {
        let mut s = String::from_str("00");
        s.append(digit_str(n));
        proof {
            reveal_strlit("00");
            assert(s@ =~= dec3(n as nat));
        }
        s
    } else if n < 100 {
        let mut s = String::from_str("0");
        s.append(dec_u16(n).as_str());
        proof {
            reveal_strlit("0");
            assert(s@ =~= dec3(n as nat));
        }
        s
    } else {
        dec_u16(n)
    }
}

/// Appends the wire form of a parameter list to `out`.
fn append_params(out: &mut String, params: &Vec<String>)
    ensures
        final(out)@ == old(out)@ + serialize_params(params.deep_view()),
{
    let n = params.len();
    let mut i: usize = 0;
    proof {
        reveal_strlit(" ");
        reveal_strlit(" :");
        assert(params.deep_view().subrange(0, n as int) =~= params.deep_view());
    }
    while i < n
        invariant
            i <= n,
            n == params@.len(),
            " "@ =~= seq![' '],
            " :"@ =~= seq![' ', ':'],
            old(out)@ + serialize_params(params.deep_view()) == out@ + serialize_params(
                params.deep_view().subrange(i as int, n as int),
            ),
        decreases n - i,
    {
        let ghost pre = out@;
        let ghost suffix = params.deep_view().subrange(i as int, n as int);
        if i + 1 == n {
            out.append(" :");
            out.append(params[i].as_str());
            proof {
                assert(suffix.len() == 1);
                assert(suffix[0] == params.deep_view()[i as int]);
                assert(out@ =~= pre + serialize_params(suffix));
                assert(params.deep_view().subrange(i + 1, n as int) =~= Seq::<Seq<char>>::empty());
            }
        } else {
            out.append(" ");
            out.append(params[i].as_str());
            proof {
                assert(suffix.len() >= 2);
                assert(suffix[0] == params.deep_view()[i as int]);
                assert(suffix.drop_first() =~= params.deep_view().subrange(i + 1, n as int));
                assert(out@ =~= pre + (seq![' '] + suffix[0]));
            }
        }
        i += 1;
    }
    proof {
        assert(params.deep_view().subrange(n as int, n as int) =~= Seq::<Seq<char>>::empty());
        assert(old(out)@ + serialize_params(params.deep_view()) =~= out@);
    }
}

impl Message {
    /// The wire line of this message, without the line terminator.
    pub fn serialize(&self) -> (r: String)
        ensures
            r@ == serialize_msg(self@),
    {
        let mut out = String::from_str(":");
        out.append(self.prefix.as_str());
        out.append(" ");
        out.append(command_name_exec(self.command));
        append_params(&mut out, &self.params);
        proof {
            reveal_strlit(":");
            reveal_strlit(" ");
            assert(out@ =~= serialize_msg(self@));
        }
        out
    }
}

impl Response {
    /// The wire line of this response, without the line terminator.
    pub fn serialize(&self) -> (r: String)
        ensures
            r@ == serialize_resp(self@),
    {
        let mut out = String::from_str(":");
        out.append(self.prefix.as_str());
        out.append(" ");
        out.append(code3(self.code).as_str());
        append_params(&mut out, &self.params);
        proof {
            reveal_strlit(":");
            reveal_strlit(" ");
            assert(out@ =~= serialize_resp(self@));
        }
        out
    }
}

/// Anything that can be written to a client as one protocol line.
pub trait ToIrcMessage {
    /// The full wire form, line terminator included.
    spec fn wire(&self) -> Seq<char>;

    fn to_irc_message(&self) -> (r: String)
        ensures
            r@ == self.wire(),
    ;
}

impl ToIrcMessage for Message {
    open spec fn wire(&self) -> Seq<char> {
        serialize_msg(self@) + crlf()
    }

    fn to_irc_message(&self) -> (r: String) {
        let mut s = self.serialize();
        s.append("\r\n");
        proof {
            reveal_strlit("\r\n");
            assert(s@ =~= serialize_msg(self@) + crlf());
        }
        s
    }
}

impl ToIrcMessage for Response {
    open spec fn wire(&self) -> Seq<char> {
        serialize_resp(self@) + crlf()
    }

    fn to_irc_message(&self) -> (r: String) {
        let mut s = self.serialize();
        s.append("\r\n");
        proof {
            reveal_strlit("\r\n");
            assert(s@ =~= serialize_resp(self@) + crlf());
        }
        s
    }
}

// ---------------------------------------------------------------------------
// The codec round trip
// ---------------------------------------------------------------------------
/// True when `s` contains no token separator.
pub open spec fn no_space(s: Seq<char>) -> bool {
    forall|k: int| 0 <= k < s.len() ==> s[k] != ' '
}

/// A message whose wire line parses back to itself: the prefix carries no
/// space, and every parameter before the last carries no space and does
/// not begin with the trailing-parameter marker. The last parameter is
/// unrestricted, since serialization always marks it.
pub open spec fn wire_wf(m: MessageView) -> bool {
    &&& no_space(m.prefix)
    &&& forall|i: int|
        0 <= i < m.params.len() - 1 ==> no_space(#[trigger] m.params[i]) && (m.params[i].len() == 0
            || m.params[i][0] != ':')
}

proof fn lemma_command_name_wf(c: Command)
    ensures
        command_name(c).len() > 0,
        no_space(command_name(c)),
{
    reveal_strlit("NICK");
    reveal_strlit("USER");
    reveal_strlit("JOIN");
    reveal_strlit("KICK");
    reveal_strlit("PART");
    reveal_strlit("PRIVMSG");
    reveal_strlit("LIST");
    reveal_strlit("AWAY");
    reveal_strlit("QUIT");
    reveal_strlit("ERROR");
    reveal_strlit("UNKNOWN");
}

/// Every command is recovered from its own wire name.
pub proof fn lemma_command_roundtrip(c: Command)
    ensures
        command_of(command_name(c)) == c,
{
    reveal_strlit("NICK");
    reveal_strlit("USER");
    reveal_strlit("JOIN");
    reveal_strlit("KICK");
    reveal_strlit("PART");
    reveal_strlit("PRIVMSG");
    reveal_strlit("LIST");
    reveal_strlit("AWAY");
    reveal_strlit("QUIT");
    reveal_strlit("ERROR");
    reveal_strlit("UNKNOWN");
    let n = command_name(c);
    assert(upper_seq(n) =~= n);
    let u = upper_seq(n);
    match c {
        Command::Nick => {},
        Command::User => {
            assert(u[0] != "NICK"@[0]);
        },
        Command::Join => {
            assert(u[0] != "NICK"@[0] && u[0] != "USER"@[0]);
        },
        Command::Kick => {
            assert(u[0] != "NICK"@[0] && u[0] != "USER"@[0] && u[0] != "JOIN"@[0]);
        },
        Command::Part => {
            assert(u[0] != "NICK"@[0] && u[0] != "USER"@[0] && u[0] != "JOIN"@[0] && u[0]
                != "KICK"@[0]);
        },
        Command::PrivMsg => {
            assert(u.len() != "NICK"@.len() && u.len() != "USER"@.len() && u.len()
                != "JOIN"@.len() && u.len() != "KICK"@.len() && u.len() != "PART"@.len());
        },
        Command::List => {
            assert(u[0] != "NICK"@[0] && u[0] != "USER"@[0] && u[0] != "JOIN"@[0] && u[0]
                != "KICK"@[0] && u[0] != "PART"@[0]);
            assert(u.len() != "PRIVMSG"@.len());
        },
        Command::Away => {
            assert(u[0] != "NICK"@[0] && u[0] != "USER"@[0] && u[0] != "JOIN"@[0] && u[0]
                != "KICK"@[0] && u[0] != "PART"@[0] && u[0] != "LIST"@[0]);
            assert(u.len() != "PRIVMSG"@.len());
        },
        Command::Quit => {
            assert(u[0] != "NICK"@[0] && u[0] != "USER"@[0] && u[0] != "JOIN"@[0] && u[0]
                != "KICK"@[0] && u[0] != "PART"@[0] && u[0] != "LIST"@[0] && u[0] != "AWAY"@[0]);
            assert(u.len() != "PRIVMSG"@.len());
        },
        Command::Error => {
            assert(u.len() != "NICK"@.len() && u.len() != "USER"@.len() && u.len()
                != "JOIN"@.len() && u.len() != "KICK"@.len() && u.len() != "PART"@.len() && u.len()
                != "PRIVMSG"@.len() && u.len() != "LIST"@.len() && u.len() != "AWAY"@.len()
                && u.len() != "QUIT"@.len());
        },
        Command::Unknown => {
            assert(u.len() != "NICK"@.len() && u.len() != "USER"@.len() && u.len()
                != "JOIN"@.len() && u.len() != "KICK"@.len() && u.len() != "PART"@.len() && u.len()
                != "LIST"@.len() && u.len() != "AWAY"@.len() && u.len() != "QUIT"@.len() && u.len()
                != "ERROR"@.len());
            assert(u[0] != "PRIVMSG"@[0]);
        },
    }
}

proof fn lemma_params_roundtrip(ps: Seq<Seq<char>>)
    requires
        ps.len() > 0,
        forall|i: int|
            0 <= i < ps.len() - 1 ==> no_space(#[trigger] ps[i]) && (ps[i].len() == 0 || ps[i][0]
                != ':'),
    ensures
        parse_params(serialize_params(ps).drop_first()) == ps,
    decreases ps.len(),
{
    let sp = serialize_params(ps);
    let d = sp.drop_first();
    if ps.len() == 1 {
        assert(d =~= seq![':'] + ps[0]);
        assert(d.subrange(1, d.len() as int) =~= ps[0]);
        assert(parse_params(d) =~= ps);
    } else {
        let rest = ps.drop_first();
        let sprest = serialize_params(rest);
        assert(sprest[0] == ' ');
        assert(d =~= ps[0] + sprest);
        let l0 = ps[0].len() as int;
        assert(d[l0] == ' ');
        assert(forall|j: int| 0 <= j < l0 ==> d[j] == ps[0][j]);
        lemma_first_space_at(d, l0);
        assert(!(d.len() > 0 && d[0] == ':')) by {
            if ps[0].len() > 0 {
                assert(d[0] == ps[0][0]);
            } else {
                assert(d[0] == sprest[0]);
            }
        }
        assert(d.subrange(0, l0) =~= ps[0]);
        assert(d.subrange(l0 + 1, d.len() as int) =~= sprest.drop_first());
        lemma_params_roundtrip(rest);
        assert(parse_params(d) =~= seq![ps[0]] + rest);
        assert(seq![ps[0]] + rest =~= ps);
    }
}

/// The codec law: serialization is the syntactic inverse of parsing. The
/// wire line of any well-formed message parses back to exactly that
/// message.
pub proof fn lemma_parse_serialize(m: MessageView)
    requires
        wire_wf(m),
    ensures
        parse_spec(serialize_msg(m)) == Some(m),
{
    let s = serialize_msg(m);
    let name = command_name(m.command);
    let sp = serialize_params(m.params);
    lemma_command_name_wf(m.command);
    lemma_command_roundtrip(m.command);
    assert(s[0] == ':');
    let rest = s.subrange(1, s.len() as int);
    assert(rest =~= m.prefix + seq![' '] + name + sp);
    let plen = m.prefix.len() as int;
    assert(rest[plen] == ' ');
    assert(forall|j: int| 0 <= j < plen ==> rest[j] == m.prefix[j]);
    lemma_first_space_at(rest, plen);
    assert(rest.subrange(0, plen) =~= m.prefix);
    let t = rest.subrange(plen + 1, rest.len() as int);
    assert(t =~= name + sp);
    let nlen = name.len() as int;
    if m.params.len() == 0 {
        assert(t =~= name);
        lemma_first_space_none(t);
        let got = parse_spec(s).unwrap();
        assert(got =~= m);
    } else {
        assert(sp[0] == ' ');
        assert(t[nlen] == ' ');
        assert(forall|j: int| 0 <= j < nlen ==> t[j] == name[j]);
        lemma_first_space_at(t, nlen);
        assert(t.subrange(0, nlen) =~= name);
        assert(t.subrange(nlen + 1, t.len() as int) =~= sp.drop_first());
        lemma_params_roundtrip(m.params);
        let got = parse_spec(s).unwrap();
        assert(got =~= m);
    }
}

} // verus!
