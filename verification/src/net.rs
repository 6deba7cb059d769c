//! What the library knows of the remote source: the endpoints it asks for,
//! the bytes that come back, and the names it has resolved so far.

use crate::discord_structs::{Channel, ChannelView, GuildMember, GuildMemberView};
use std::str::Utf8Error;
use vstd::hash_map::StringHashMap;
use vstd::prelude::*;
use vstd::string::*;
use vstd::utf8::valid_utf8;

verus! {

/// `hyper::Error`: why a request failed. Carried, never looked into.
#[verifier::external_type_specification]
#[verifier::external_body]
pub struct ExHyperError(hyper::Error);

/// `std::str::Utf8Error`: where bytes stop being UTF-8. Carried, never
/// looked into.
#[verifier::external_type_specification]
#[verifier::external_body]
pub struct ExUtf8Error(std::str::Utf8Error);

/// `serde_json::Error`: why a body did not decode. Carried, never looked
/// into.
#[verifier::external_type_specification]
#[verifier::external_body]
pub struct ExJsonError(serde_json::Error);

/// Why a run is abandoned.
#[derive(Debug)]
pub enum LawError {
    /// The transport failed.
    Hyper(hyper::Error),
    /// A response body is not UTF-8.
    Utf8(Utf8Error),
    /// A response body does not decode to the expected shape.
    DeJson(serde_json::Error),
    /// A page of threads is empty although more pages are announced.
    EmptyPage,
}

/// The body of a response, with its status code.
pub struct Response {
    pub status: u16,
    pub bytes: Vec<u8>,
}

/// `std::str::from_utf8` succeeds exactly on well-formed UTF-8, and the
/// string it returns has the given bytes.
#[verifier::external_body]
fn from_utf8(bytes: &[u8]) -> (r: Result<&str, Utf8Error>)
    ensures
        r is Ok <==> valid_utf8(bytes@),
        r matches Ok(s) ==> s.spec_bytes() == bytes@,
{
    std::str::from_utf8(bytes)
}

impl Response {
    pub fn new(status: u16, bytes: Vec<u8>) -> (r: Response)
        ensures
            r.status == status,
            r.bytes == bytes,
    {
        Response { status, bytes }
    }

    /// The body as text.
    pub fn utf(&self) -> (r: Result<&str, LawError>)
        ensures
            r is Ok <==> valid_utf8(self.bytes@),
            r matches Ok(s) ==> s.spec_bytes() == self.bytes@,
            r matches Err(e) ==> e is Utf8,
    {
        match from_utf8(self.bytes.as_slice()) {
            Ok(s) => Ok(s),
            Err(e) => Err(LawError::Utf8(e)),
        }
    }
}

/// The names resolved so far: user identifier to display name, channel
/// identifier to channel name.
pub struct Names {
    pub users: Map<Seq<char>, Seq<char>>,
    pub channels: Map<Seq<char>, Seq<char>>,
}

/// A name that has to be fetched before work can go on.
#[derive(Debug)]
pub enum Lookup {
    Member(String),
    Channel(String),
}

pub enum LookupView {
    Member(Seq<char>),
    Channel(Seq<char>),
}

impl Names {
    pub open spec fn empty() -> Names {
        Names { users: Map::empty(), channels: Map::empty() }
    }

    /// The names after the lookup of a member gave `member`, or failed to
    /// decode. A user that has a name keeps it.
    pub open spec fn with_member(self, user_id: Seq<char>, member: Option<GuildMemberView>) -> Names {
        if self.users.contains_key(user_id) {
            self
        } else {
            Names { users: self.users.insert(user_id, member_name(member)), ..self }
        }
    }

    /// The names after the lookup of a channel gave `channel`, or failed to
    /// decode. A channel that has a name keeps it.
    pub open spec fn with_channel(self, channel_id: Seq<char>, channel: Option<ChannelView>) -> Names {
        if self.channels.contains_key(channel_id) {
            self
        } else {
            Names { channels: self.channels.insert(channel_id, channel_name(channel)), ..self }
        }
    }

    /// Whether the name that `l` asks for has been resolved.
    pub open spec fn knows(self, l: LookupView) -> bool {
        match l {
            LookupView::Member(id) => self.users.contains_key(id),
            LookupView::Channel(id) => self.channels.contains_key(id),
        }
    }
}

impl View for Lookup {
    type V = LookupView;

    open spec fn view(&self) -> LookupView {
        match self {
            Lookup::Member(id) => LookupView::Member(id@),
            Lookup::Channel(id) => LookupView::Channel(id@),
        }
    }
}

/// The name shown for a user: the nickname in the guild if there is one,
/// else the user name; a fixed name where the member could not be decoded.
pub open spec fn member_name(member: Option<GuildMemberView>) -> Seq<char> {
    match member {
        Some(m) => match m.nick {
            Some(n) => n,
            None => m.user.username,
        },
        None => "Deleted User"@,
    }
}

/// The name shown for a channel; a fixed name where it could not be decoded.
pub open spec fn channel_name(channel: Option<ChannelView>) -> Seq<char> {
    match channel {
        Some(c) => c.name,
        None => "Deleted Channel"@,
    }
}

pub open spec fn decoded<T: View>(r: Result<T, LawError>) -> Option<T::V> {
    match r {
        Ok(t) => Some(t@),
        Err(_) => None,
    }
}

pub open spec fn member_uri(user_id: Seq<char>) -> Seq<char> {
    LawsClient::API@ + "/guilds/"@ + LawsClient::GUILD_ID@ + "/members/"@ + user_id
}

pub open spec fn channel_uri(channel_id: Seq<char>) -> Seq<char> {
    LawsClient::API@ + "/channels/"@ + channel_id
}

pub open spec fn messages_uri(thread_id: Seq<char>) -> Seq<char> {
    LawsClient::API@ + "/channels/"@ + thread_id + "/messages?limit=100"@
}

pub open spec fn threads_uri(channel_id: Seq<char>, kind: Seq<char>, before: Seq<char>) -> Seq<
    char,
> {
    LawsClient::API@ + "/channels/"@ + channel_id + "/threads/"@ + kind + before
}

impl Lookup {
    /// Where the name is fetched from.
    pub open spec fn spec_uri(v: LookupView) -> Seq<char> {
        match v {
            LookupView::Member(id) => member_uri(id),
            LookupView::Channel(id) => channel_uri(id),
        }
    }

    pub fn uri(&self) -> (r: String)
        ensures
            r@ == Self::spec_uri(self@),
    {
        match self {
            Lookup::Member(id) => {
                let mut r = String::from_str(LawsClient::API);
                r.append("/guilds/");
                r.append(LawsClient::GUILD_ID);
                r.append("/members/");
                r.append(id.as_str());
                r
            },
            Lookup::Channel(id) => {
                let mut r = String::from_str(LawsClient::API);
                r.append("/channels/");
                r.append(id.as_str());
                r
            },
        }
    }
}

/// The endpoint that lists the latest messages of a thread, newest first.
pub fn messages_endpoint(thread_id: &str) -> (r: String)
    ensures
        r@ == messages_uri(thread_id@),
{
    let mut r = String::from_str(LawsClient::API);
    r.append("/channels/");
    r.append(thread_id);
    r.append("/messages?limit=100");
    r
}

/// The endpoint that lists one page of a channel's threads of one kind;
/// `before` is empty or the query that continues after an earlier page.
pub fn threads_endpoint(channel_id: &str, kind: &str, before: &str) -> (r: String)
    ensures
        r@ == threads_uri(channel_id@, kind@, before@),
{
    let mut r = String::from_str(LawsClient::API);
    r.append("/channels/");
    r.append(channel_id);
    r.append("/threads/");
    r.append(kind);
    r.append(before);
    r
}

/// The resolver of names. Each name is fetched at most once: what was
/// recorded for an identifier stays for the lifetime of the value.
pub struct LawsClient {
    nicknames: StringHashMap<String>,
    channel_names: StringHashMap<String>,
}

impl View for LawsClient {
    type V = Names;

    closed spec fn view(&self) -> Names {
        Names {
            users: self.nicknames@.map_values(|s: String| s@),
            channels: self.channel_names@.map_values(|s: String| s@),
        }
    }
}

impl LawsClient {
    pub const API: &'static str = "https://discord.com/api/v9";

    pub const GUILD_ID: &'static str = "907657508292792342";

    pub fn new() -> (c: LawsClient)
        ensures
            c@ == Names::empty(),
    {
        let c = LawsClient { nicknames: StringHashMap::new(), channel_names: StringHashMap::new() };
        assert(c@.users =~= Map::empty() && c@.channels =~= Map::empty());
        c
    }

    /// The display name of a user, or the lookup to make first.
    pub fn get_nickname(&self, user_id: &String) -> (r: Result<&String, Lookup>)
        ensures
            match r {
                Ok(name) => self@.users.contains_key(user_id@) && name@ == self@.users[user_id@],
                Err(l) => !self@.users.contains_key(user_id@) && l@ == LookupView::Member(
                    user_id@,
                ),
            },
    {
        match self.nicknames.get(user_id.as_str()) {
            Some(name) => Ok(name),
            None => Err(Lookup::Member(user_id.clone())),
        }
    }

    /// The name of a channel, or the lookup to make first.
    pub fn get_channel_name(&self, channel_id: &String) -> (r: Result<&String, Lookup>)
        ensures
            match r {
                Ok(name) => self@.channels.contains_key(channel_id@) && name@
                    == self@.channels[channel_id@],
                Err(l) => !self@.channels.contains_key(channel_id@) && l@ == LookupView::Channel(
                    channel_id@,
                ),
            },
    {
        match self.channel_names.get(channel_id.as_str()) {
            Some(name) => Ok(name),
            None => Err(Lookup::Channel(channel_id.clone())),
        }
    }

    /// Records what the lookup of a member gave. An identifier that already
    /// has a name keeps it.
    pub fn record_member(&mut self, user_id: &String, member: Result<GuildMember, LawError>)
        ensures
            final(self)@ == old(self)@.with_member(user_id@, decoded(member)),
    {
        if !self.nicknames.contains_key(user_id.as_str()) {
            let name = match member {
                Ok(m) => match m.nick {
                    Some(n) => n,
                    None => m.user.username,
                },
                Err(_) => String::from_str("Deleted User"),
            };
            self.nicknames.insert(user_id.clone(), name);
            assert(self@.users =~= old(self)@.users.insert(
                user_id@,
                member_name(decoded(member)),
            ));
            assert(self@.channels =~= old(self)@.channels);
        }
    }

    /// Records what the lookup of a channel gave. An identifier that already
    /// has a name keeps it.
    pub fn record_channel(&mut self, channel_id: &String, channel: Result<Channel, LawError>)
        ensures
            final(self)@ == old(self)@.with_channel(channel_id@, decoded(channel)),
    {
        if !self.channel_names.contains_key(channel_id.as_str()) {
            let name = match channel {
                Ok(c) => c.name,
                Err(_) => String::from_str("Deleted Channel"),
            };
            self.channel_names.insert(channel_id.clone(), name);
            assert(self@.channels =~= old(self)@.channels.insert(
                channel_id@,
                channel_name(decoded(channel)),
            ));
            assert(self@.users =~= old(self)@.users);
        }
    }
}

/// A lookup is made once. After the lookup of a member is recorded,
/// whatever it gave, the user has a name, which is the fixed one where the
/// lookup failed to decode; and whatever is recorded later, for this user
/// or another, for a channel, the user keeps that name.
pub proof fn lemma_member_resolved_once(
    names: Names,
    user_id: Seq<char>,
    member: Option<GuildMemberView>,
    later_user: Seq<char>,
    later_member: Option<GuildMemberView>,
    later_channel: Seq<char>,
    later_named: Option<ChannelView>,
)
    ensures
        ({
            let after = names.with_member(user_id, member);
            &&& after.knows(LookupView::Member(user_id))
            &&& !names.users.contains_key(user_id) ==> after.users[user_id] == member_name(member)
            &&& !names.users.contains_key(user_id) && member is None ==> after.users[user_id]
                == "Deleted User"@
            &&& names.users.contains_key(user_id) ==> after == names
            &&& after.with_member(later_user, later_member).knows(LookupView::Member(user_id))
            &&& after.with_member(later_user, later_member).users[user_id] == after.users[user_id]
            &&& after.with_channel(later_channel, later_named).users == after.users
        }),
{
}

/// A lookup is made once. After the lookup of a channel is recorded,
/// whatever it gave, the channel has a name, which is the fixed one where
/// the lookup failed to decode; and whatever is recorded later, the channel
/// keeps that name.
pub proof fn lemma_channel_resolved_once(
    names: Names,
    channel_id: Seq<char>,
    channel: Option<ChannelView>,
    later_user: Seq<char>,
    later_member: Option<GuildMemberView>,
    later_channel: Seq<char>,
    later_named: Option<ChannelView>,
)
    ensures
        ({
            let after = names.with_channel(channel_id, channel);
            &&& after.knows(LookupView::Channel(channel_id))
            &&& !names.channels.contains_key(channel_id) ==> after.channels[channel_id]
                == channel_name(channel)
            &&& !names.channels.contains_key(channel_id) && channel is None
                ==> after.channels[channel_id] == "Deleted Channel"@
            &&& names.channels.contains_key(channel_id) ==> after == names
            &&& after.with_channel(later_channel, later_named).knows(
                LookupView::Channel(channel_id),
            )
            &&& after.with_channel(later_channel, later_named).channels[channel_id]
                == after.channels[channel_id]
            &&& after.with_member(later_user, later_member).channels == after.channels
        }),
{
}

} // verus!
