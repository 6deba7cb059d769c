//! The votes cast in a thread and the transcript of its messages.

use crate::discord_structs::{views, Message, MessageView};
use crate::markup::{format_content, markup, missing, tokens};
use crate::net::{LawsClient, Lookup, LookupView, Names};
use crate::text::{chars_of, contains, decimal, find, lowercase, numeral, to_lowercase};
use vstd::hash_set::StringHashSet;
use vstd::prelude::*;
use vstd::string::*;

verus! {

/// What a message says on the proposal.
#[derive(Clone, Copy, Debug, PartialEq, Eq, Structural)]
pub enum Vote {
    For,
    Against,
    Neither,
}

/// The vote that text in lower case holds: against where it holds
/// "against", else for where it holds "for". Text that holds both is a
/// vote against.
pub open spec fn vote_in(lower: Seq<char>) -> Vote {
    if contains(lower, "against"@) {
        Vote::Against
    } else if contains(lower, "for"@) {
        Vote::For
    } else {
        Vote::Neither
    }
}

/// Reads the vote in text that is in lower case already.
pub fn read_vote(lower: &str) -> (v: Vote)
    ensures
        v == vote_in(lower@),
{
    let hay = chars_of(lower);
    let against = chars_of("against");
    let in_favour = chars_of("for");
    if find(&hay, &against) {
        Vote::Against
    } else if find(&hay, &in_favour) {
        Vote::For
    } else {
        Vote::Neither
    }
}

/// The vote that a message's text holds, whatever its case.
pub fn vote_of(content: &str) -> (v: Vote)
    ensures
        v == vote_in(lowercase(content@)),
{
    let lower = to_lowercase(content);
    read_vote(lower.as_str())
}

/// Text that holds "against" is a vote against, whether or not it holds
/// "for" too.
pub proof fn lemma_against_takes_precedence(lower: Seq<char>)
    requires
        contains(lower, "against"@),
    ensures
        vote_in(lower) == Vote::Against,
{
}

/// Who stands for and who stands against.
pub struct Tally {
    pub yes: Set<Seq<char>>,
    pub no: Set<Seq<char>>,
}

impl Tally {
    pub open spec fn empty() -> Tally {
        Tally { yes: Set::empty(), no: Set::empty() }
    }

    /// The tally after `author` cast `vote`: a vote moves its author to
    /// that side, and a message without a vote changes nothing.
    pub open spec fn cast(self, author: Seq<char>, vote: Vote) -> Tally {
        match vote {
            Vote::Against => Tally { yes: self.yes.remove(author), no: self.no.insert(author) },
            Vote::For => Tally { yes: self.yes.insert(author), no: self.no.remove(author) },
            Vote::Neither => self,
        }
    }

    /// A proposal passes with more voters for than against.
    pub open spec fn passed(self) -> bool {
        self.yes.len() > self.no.len()
    }
}

/// The tally of votes cast in this order, each with its author.
pub open spec fn tally(cast: Seq<(Seq<char>, Vote)>) -> Tally
    decreases cast.len(),
{
    if cast.len() == 0 {
        Tally::empty()
    } else {
        tally(cast.drop_last()).cast(cast.last().0, cast.last().1)
    }
}

/// The latest vote of `author` among `cast`, leaving out messages
/// without a vote.
pub open spec fn last_vote(cast: Seq<(Seq<char>, Vote)>, author: Seq<char>) -> Vote
    decreases cast.len(),
{
    if cast.len() == 0 {
        Vote::Neither
    } else if cast.last().0 == author && cast.last().1 != Vote::Neither {
        cast.last().1
    } else {
        last_vote(cast.drop_last(), author)
    }
}

/// Only the latest vote of an author counts: the author stands for exactly
/// when that vote is for, against exactly when it is against, and on
/// neither side without a vote. No author stands on both sides.
pub proof fn lemma_latest_vote_counts(cast: Seq<(Seq<char>, Vote)>, author: Seq<char>)
    ensures
        tally(cast).yes.contains(author) <==> last_vote(cast, author) == Vote::For,
        tally(cast).no.contains(author) <==> last_vote(cast, author) == Vote::Against,
        !(tally(cast).yes.contains(author) && tally(cast).no.contains(author)),
        tally(cast).yes.finite(),
        tally(cast).no.finite(),
    decreases cast.len(),
{
    if cast.len() > 0 {
        lemma_latest_vote_counts(cast.drop_last(), author);
    }
}

/// The voters of a thread so far.
pub struct Ballots {
    users_for: StringHashSet,
    users_against: StringHashSet,
}

impl View for Ballots {
    type V = Tally;

    closed spec fn view(&self) -> Tally {
        Tally { yes: self.users_for@, no: self.users_against@ }
    }
}

impl Ballots {
    pub fn new() -> (b: Ballots)
        ensures
            b@ == Tally::empty(),
    {
        Ballots { users_for: StringHashSet::new(), users_against: StringHashSet::new() }
    }

    /// Counts a vote of `author`, in place of an earlier one if there is one.
    pub fn cast(&mut self, author: &String, vote: Vote)
        ensures
            final(self)@ == old(self)@.cast(author@, vote),
    {
        match vote {
            Vote::Against => {
                self.users_for.remove(author.as_str());
                self.users_against.insert(author.clone());
            },
            Vote::For => {
                self.users_against.remove(author.as_str());
                self.users_for.insert(author.clone());
            },
            Vote::Neither => {},
        }
    }

    pub fn count_for(&self) -> (n: usize)
        ensures
            n == self@.yes.len(),
    {
        self.users_for.len()
    }

    pub fn count_against(&self) -> (n: usize)
        ensures
            n == self@.no.len(),
    {
        self.users_against.len()
    }

    pub fn passed(&self) -> (p: bool)
        ensures
            p == self@.passed(),
    {
        self.users_for.len() > self.users_against.len()
    }
}

/// The summary of a tally, such as `3-for-1-against`.
pub open spec fn votes_text(yes: nat, no: nat) -> Seq<char> {
    decimal(yes) + "-for-"@ + decimal(no) + "-against"@
}

/// The votes of messages in the order they were sent, each with its author.
pub open spec fn votes_cast(chron: Seq<MessageView>) -> Seq<(Seq<char>, Vote)> {
    chron.map_values(|m: MessageView| (m.author.id, vote_in(lowercase(m.content))))
}

/// The transcript line of one message: the speaker's name in bold, the
/// message as markup, and a line break.
pub open spec fn entry(m: MessageView, names: Names) -> Seq<char> {
    "<b>"@ + names.users[m.author.id] + ":</b> "@ + markup(
        tokens(m.content),
        false,
        false,
        names,
    ) + "<br>"@
}

/// The first name that the line of `m` needs and that is not resolved:
/// the mentions in the text come first, the speaker last.
pub open spec fn entry_missing(m: MessageView, names: Names) -> Option<LookupView> {
    match missing(tokens(m.content), names) {
        Some(l) => Some(l),
        None => if names.users.contains_key(m.author.id) {
            None
        } else {
            Some(LookupView::Member(m.author.id))
        },
    }
}

/// The transcript of messages in the order they were sent.
pub open spec fn transcript(chron: Seq<MessageView>, names: Names) -> Seq<char>
    decreases chron.len(),
{
    if chron.len() == 0 {
        Seq::empty()
    } else {
        entry(chron[0], names) + transcript(chron.drop_first(), names)
    }
}

/// The first name that the transcript needs and that is not resolved.
pub open spec fn transcript_missing(chron: Seq<MessageView>, names: Names) -> Option<LookupView>
    decreases chron.len(),
{
    if chron.len() == 0 {
        None
    } else {
        match entry_missing(chron[0], names) {
            Some(l) => Some(l),
            None => transcript_missing(chron.drop_first(), names),
        }
    }
}

/// What the messages of a thread amount to: the transcript, whether the
/// proposal has more voters for than against, and the summary of the tally.
pub type Digest = (Seq<char>, bool, Seq<char>);

/// What messages amount to, in the order they were sent.
pub open spec fn digest(chron: Seq<MessageView>, names: Names) -> Digest {
    let counted = tally(votes_cast(chron));
    (transcript(chron, names), counted.passed(), votes_text(counted.yes.len(), counted.no.len()))
}

/// The messages of a listing, which gives the newest first, in the order
/// they were sent.
pub open spec fn in_order_sent(msgs: Seq<Message>) -> Seq<MessageView> {
    views(msgs).reverse()
}

/// From the latest messages of a thread, newest first: the transcript in
/// the order they were sent, whether the proposal has more voters for than
/// against, and the summary of the tally. Where a name is not resolved
/// yet, the first such lookup is returned instead: the caller makes it,
/// records it and asks again.
pub fn get_messages(client: &LawsClient, msgs: &Vec<Message>) -> (r: Result<
    (String, bool, String),
    Lookup,
>)
    ensures
        match r {
            Ok((description, passed, votes)) => {
                &&& transcript_missing(in_order_sent(msgs@), client@) is None
                &&& (description@, passed, votes@) == digest(in_order_sent(msgs@), client@)
            },
            Err(l) => transcript_missing(in_order_sent(msgs@), client@) == Some(l@),
        },
{
    let ghost chron = views(msgs@).reverse();
    let ghost names = client@;
    let n = msgs.len();
    let mut ballots = Ballots::new();
    let mut description = String::new();
    let mut k: usize = 0;
    assert(chron.skip(0) =~= chron);
    assert(chron.take(0) =~= Seq::<MessageView>::empty());
    assert(votes_cast(chron.take(0)) =~= Seq::<(Seq<char>, Vote)>::empty());
    assert(description@ + transcript(chron, names) =~= transcript(chron, names));
    while k < n
        invariant
            k <= n,
            n == msgs.len(),
            chron == views(msgs@).reverse(),
            names == client@,
            transcript_missing(chron, names) == transcript_missing(chron.skip(k as int), names),
            transcript(chron, names) == description@ + transcript(chron.skip(k as int), names),
            ballots@ == tally(votes_cast(chron.take(k as int))),
        decreases n - k,
    {
        let message = &msgs[n - 1 - k];
        let ghost rest = chron.skip(k as int);
        let ghost m = chron[k as int];
        let ghost before = description@;
        assert(m == message@);
        assert(rest[0] == m);
        assert(rest.drop_first() =~= chron.skip(k + 1));
        let content = match format_content(client, message.content.as_str()) {
            Ok(c) => c,
            Err(l) => {
                return Err(l);
            },
        };
        let speaker = match client.get_nickname(&message.author.id) {
            Ok(name) => name,
            Err(l) => {
                return Err(l);
            },
        };
        description.append("<b>");
        description.append(speaker.as_str());
        description.append(":</b> ");
        description.append(content.as_str());
        description.append("<br>");
        assert(description@ =~= before + entry(m, names));
        assert(before + (entry(m, names) + transcript(rest.drop_first(), names)) =~= description@
            + transcript(rest.drop_first(), names));

        let vote = vote_of(message.content.as_str());
        ballots.cast(&message.author.id, vote);
        proof {
            let upto = chron.take(k + 1);
            assert(upto.drop_last() =~= chron.take(k as int));
            assert(votes_cast(upto).drop_last() =~= votes_cast(chron.take(k as int)));
            assert(votes_cast(upto).last() == (m.author.id, vote));
        }
        k = k + 1;
    }
    assert(chron.take(n as int) =~= chron);
    assert(chron.skip(n as int) =~= Seq::<MessageView>::empty());
    assert(description@ + Seq::<char>::empty() =~= description@);
    let passed = ballots.passed();
    let mut votes = numeral(ballots.count_for());
    votes.append("-for-");
    votes.append(numeral(ballots.count_against()).as_str());
    votes.append("-against");
    Ok((description, passed, votes))
}

} // verus!
