//! The records exchanged with the chat platform and the persisted law
//! records, each with the mathematical value that contracts speak of.

use vstd::prelude::*;

verus! {

/// The values of the items of `s`, in order.
pub open spec fn views<T: View>(s: Seq<T>) -> Seq<T::V> {
    s.map_values(|t: T| t@)
}

#[derive(Debug)]
pub struct ThreadMetadata {
    pub archived: bool,
    pub archive_timestamp: String,
}

#[derive(Debug)]
pub struct Thread {
    pub id: String,
    pub name: String,
    pub last_message_id: String,
    pub thread_metadata: ThreadMetadata,
    pub parent_id: String,
}

#[derive(Debug)]
pub struct ThreadList {
    pub threads: Vec<Thread>,
    pub has_more: bool,
}

#[derive(Debug)]
pub struct Author {
    pub id: String,
}

#[derive(Debug)]
pub struct Message {
    pub content: String,
    pub author: Author,
}

#[derive(Debug)]
pub struct GuildUser {
    pub username: String,
}

#[derive(Debug)]
pub struct GuildMember {
    pub nick: Option<String>,
    pub user: GuildUser,
}

#[derive(Debug)]
pub struct Channel {
    pub name: String,
}

#[derive(Debug)]
pub struct LawInfo {
    pub id: String,
    pub last_message_id: String,
    pub name: String,
    pub votes: String,
    pub passed: bool,
    pub status: String,
    pub constitution: bool,
    pub interpretation: String,
    pub description: String,
}

#[derive(Debug)]
pub struct LawData {
    pub generated: String,
    pub laws: Vec<LawInfo>,
}

pub struct ThreadMetadataView {
    pub archived: bool,
    pub archive_timestamp: Seq<char>,
}

pub struct ThreadView {
    pub id: Seq<char>,
    pub name: Seq<char>,
    pub last_message_id: Seq<char>,
    pub thread_metadata: ThreadMetadataView,
    pub parent_id: Seq<char>,
}

pub struct ThreadListView {
    pub threads: Seq<ThreadView>,
    pub has_more: bool,
}

pub struct AuthorView {
    pub id: Seq<char>,
}

pub struct MessageView {
    pub content: Seq<char>,
    pub author: AuthorView,
}

pub struct GuildUserView {
    pub username: Seq<char>,
}

pub struct GuildMemberView {
    pub nick: Option<Seq<char>>,
    pub user: GuildUserView,
}

pub struct ChannelView {
    pub name: Seq<char>,
}

pub struct LawInfoView {
    pub id: Seq<char>,
    pub last_message_id: Seq<char>,
    pub name: Seq<char>,
    pub votes: Seq<char>,
    pub passed: bool,
    pub status: Seq<char>,
    pub constitution: bool,
    pub interpretation: Seq<char>,
    pub description: Seq<char>,
}

pub struct LawDataView {
    pub generated: Seq<char>,
    pub laws: Seq<LawInfoView>,
}

impl View for ThreadMetadata {
    type V = ThreadMetadataView;

    open spec fn view(&self) -> ThreadMetadataView {
        ThreadMetadataView {
            archived: self.archived,
            archive_timestamp: self.archive_timestamp@,
        }
    }
}

impl View for Thread {
    type V = ThreadView;

    open spec fn view(&self) -> ThreadView {
        ThreadView {
            id: self.id@,
            name: self.name@,
            last_message_id: self.last_message_id@,
            thread_metadata: self.thread_metadata@,
            parent_id: self.parent_id@,
        }
    }
}

impl View for ThreadList {
    type V = ThreadListView;

    open spec fn view(&self) -> ThreadListView {
        ThreadListView { threads: views(self.threads@), has_more: self.has_more }
    }
}

impl View for Author {
    type V = AuthorView;

    open spec fn view(&self) -> AuthorView {
        AuthorView { id: self.id@ }
    }
}

impl View for Message {
    type V = MessageView;

    open spec fn view(&self) -> MessageView {
        MessageView { content: self.content@, author: self.author@ }
    }
}

impl View for GuildUser {
    type V = GuildUserView;

    open spec fn view(&self) -> GuildUserView {
        GuildUserView { username: self.username@ }
    }
}

impl View for GuildMember {
    type V = GuildMemberView;

    open spec fn view(&self) -> GuildMemberView {
        GuildMemberView {
            nick: match self.nick {
                Some(n) => Some(n@),
                None => None,
            },
            user: self.user@,
        }
    }
}

impl View for Channel {
    type V = ChannelView;

    open spec fn view(&self) -> ChannelView {
        ChannelView { name: self.name@ }
    }
}

impl View for LawInfo {
    type V = LawInfoView;

    open spec fn view(&self) -> LawInfoView {
        LawInfoView {
            id: self.id@,
            last_message_id: self.last_message_id@,
            name: self.name@,
            votes: self.votes@,
            passed: self.passed,
            status: self.status@,
            constitution: self.constitution,
            interpretation: self.interpretation@,
            description: self.description@,
        }
    }
}

impl View for LawData {
    type V = LawDataView;

    open spec fn view(&self) -> LawDataView {
        LawDataView { generated: self.generated@, laws: views(self.laws@) }
    }
}

/// No two records of `laws` share an identifier.
pub open spec fn unique_ids(laws: Seq<LawInfoView>) -> bool {
    forall|i: int, j: int| 0 <= i < j < laws.len() ==> laws[i].id != laws[j].id
}

impl LawData {
    /// The document's invariant: record identifiers are unique.
    pub open spec fn wf(&self) -> bool {
        unique_ids(self@.laws)
    }
}

impl Default for LawData {
    /// The empty document, from which a run starts when no earlier one can be read.
    fn default() -> (d: LawData)
        ensures
            d@.generated == Seq::<char>::empty(),
            d@.laws == Seq::<LawInfoView>::empty(),
            d.wf(),
    {
        LawData { generated: String::new(), laws: Vec::new() }
    }
}

} // verus!
