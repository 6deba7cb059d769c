//! Reconciliation of the persisted law records with the threads that were
//! enumerated: which records are refreshed, which stay, and where new ones
//! are put.

use crate::discord_structs::{
    unique_ids, views, LawData, LawInfo, LawInfoView, Thread, ThreadView,
};
use crate::discord_structs::Message;
use crate::net::{LawsClient, Lookup};
use crate::votes::{digest, get_messages, in_order_sent, transcript_missing, Digest};
use vstd::prelude::*;
use vstd::string::*;

verus! {

pub open spec fn digest_of(content: Option<(String, bool, String)>) -> Option<Digest> {
    match content {
        Some(c) => Some((c.0@, c.1, c.2@)),
        None => None,
    }
}

pub open spec fn record_of(current: Option<&LawInfo>) -> Option<LawInfoView> {
    match current {
        Some(c) => Some(c@),
        None => None,
    }
}

/// The status of a proposal: open threads are still voted on, whatever the
/// tally; archived ones have passed or not.
pub open spec fn status_of(archived: bool, passed: bool) -> Seq<char> {
    if !archived {
        "Voting"@
    } else if passed {
        "Passed"@
    } else {
        "Not passed"@
    }
}

/// The record of a thread seen for the first time. It is constitutional
/// where the thread's parent is the constitution channel, and nobody has
/// interpreted it yet.
pub open spec fn created(thread: ThreadView, digest: Digest, constitution: Seq<char>) -> LawInfoView {
    LawInfoView {
        id: thread.id,
        last_message_id: thread.last_message_id,
        name: thread.name,
        votes: digest.2,
        passed: digest.1,
        status: status_of(thread.thread_metadata.archived, digest.1),
        constitution: thread.parent_id == constitution,
        interpretation: Seq::empty(),
        description: digest.0,
    }
}

/// The record of a thread whose last message changed: name, watermark,
/// tally, status and transcript are taken anew; the rest stays, the
/// interpretation above all.
pub open spec fn refreshed(current: LawInfoView, thread: ThreadView, digest: Digest) -> LawInfoView {
    LawInfoView {
        last_message_id: thread.last_message_id,
        name: thread.name,
        votes: digest.2,
        passed: digest.1,
        status: status_of(thread.thread_metadata.archived, digest.1),
        description: digest.0,
        ..current
    }
}

/// Whether the messages of `thread` are needed: it has no record yet, or
/// its last message is not the one the record saw.
pub open spec fn wants_messages(thread: ThreadView, current: Option<LawInfoView>) -> bool {
    match current {
        Some(c) => c.last_message_id != thread.last_message_id,
        None => true,
    }
}

/// The record of `thread` after reconciliation, from the record it had
/// and from what its messages amount to. A record whose watermark is the
/// thread's last message is left as it is. There is no result where the
/// messages are needed and not given.
pub open spec fn updated(
    thread: ThreadView,
    current: Option<LawInfoView>,
    constitution: Seq<char>,
    digest: Option<Digest>,
) -> Option<LawInfoView> {
    match current {
        Some(c) => if c.last_message_id == thread.last_message_id {
            Some(c)
        } else {
            match digest {
                Some(d) => Some(refreshed(c, thread, d)),
                None => None,
            }
        },
        None => match digest {
            Some(d) => Some(created(thread, d, constitution)),
            None => None,
        },
    }
}

/// The status label of a proposal.
pub fn status(archived: bool, passed: bool) -> (s: String)
    ensures
        s@ == status_of(archived, passed),
{
    if !archived {
        String::from_str("Voting")
    } else if passed {
        String::from_str("Passed")
    } else {
        String::from_str("Not passed")
    }
}

/// Whether the messages of `thread` have to be fetched before its record
/// can be brought up to date.
pub fn needs_messages(thread: &Thread, current: Option<&LawInfo>) -> (r: bool)
    ensures
        r == wants_messages(thread@, record_of(current)),
{
    match current {
        Some(c) => !(c.last_message_id == thread.last_message_id),
        None => true,
    }
}

/// The record of `thread`, from the record it had, if any, and from what
/// its messages amount to. Where the messages are needed and not given,
/// the thread is handed back: the caller fetches them and asks again.
pub fn update_info(
    thread: Thread,
    current: Option<&LawInfo>,
    constitution: &String,
    content: Option<(String, bool, String)>,
) -> (r: Result<LawInfo, Thread>)
    ensures
        match r {
            Ok(info) => updated(thread@, record_of(current), constitution@, digest_of(content))
                == Some(info@),
            Err(t) => t == thread && updated(
                thread@,
                record_of(current),
                constitution@,
                digest_of(content),
            ) is None,
        },
{
    match current {
        Some(c) => {
            if c.last_message_id == thread.last_message_id {
                Ok(
                    LawInfo {
                        id: c.id.clone(),
                        last_message_id: c.last_message_id.clone(),
                        name: c.name.clone(),
                        votes: c.votes.clone(),
                        passed: c.passed,
                        status: c.status.clone(),
                        constitution: c.constitution,
                        interpretation: c.interpretation.clone(),
                        description: c.description.clone(),
                    },
                )
            } else {
                match content {
                    Some((description, passed, votes)) => Ok(
                        LawInfo {
                            id: c.id.clone(),
                            last_message_id: thread.last_message_id,
                            name: thread.name,
                            votes,
                            passed,
                            status: status(thread.thread_metadata.archived, passed),
                            constitution: c.constitution,
                            interpretation: c.interpretation.clone(),
                            description,
                        },
                    ),
                    None => Err(thread),
                }
            }
        },
        None => {
            match content {
                Some((description, passed, votes)) => Ok(
                    LawInfo {
                        constitution: thread.parent_id == *constitution,
                        id: thread.id,
                        last_message_id: thread.last_message_id,
                        name: thread.name,
                        votes,
                        passed,
                        status: status(thread.thread_metadata.archived, passed),
                        interpretation: String::new(),
                        description,
                    },
                ),
                None => Err(thread),
            }
        },
    }
}

/// The place of the first record with this identifier.
pub open spec fn position(laws: Seq<LawInfoView>, id: Seq<char>) -> Option<nat>
    decreases laws.len(),
{
    if laws.len() == 0 {
        None
    } else if laws[0].id == id {
        Some(0)
    } else {
        match position(laws.drop_first(), id) {
            Some(i) => Some(i + 1),
            None => None,
        }
    }
}

pub proof fn lemma_position(laws: Seq<LawInfoView>, id: Seq<char>)
    ensures
        match position(laws, id) {
            Some(i) => i < laws.len() && laws[i as int].id == id && forall|j: int|
                0 <= j < i ==> laws[j].id != id,
            None => forall|j: int| 0 <= j < laws.len() ==> laws[j].id != id,
        },
    decreases laws.len(),
{
    if laws.len() > 0 && laws[0].id != id {
        let rest = laws.drop_first();
        lemma_position(rest, id);
        match position(rest, id) {
            Some(i) => {
                assert forall|j: int| 0 <= j < i + 1 implies laws[j].id != id by {
                    if j > 0 {
                        assert(laws[j] == rest[j - 1]);
                    }
                }
            },
            None => {
                assert forall|j: int| 0 <= j < laws.len() implies laws[j].id != id by {
                    if j > 0 {
                        assert(laws[j] == rest[j - 1]);
                    }
                }
            },
        }
    }
}

/// The first index at which `found` holds a record with this identifier
/// is its position.
pub proof fn lemma_position_is(laws: Seq<LawInfoView>, id: Seq<char>, i: int)
    requires
        0 <= i < laws.len(),
        laws[i].id == id,
        forall|j: int| 0 <= j < i ==> laws[j].id != id,
    ensures
        position(laws, id) == Some(i as nat),
{
    lemma_position(laws, id);
}

/// Finds the first record with this identifier.
pub fn find_law(laws: &Vec<LawInfo>, id: &String) -> (r: Option<usize>)
    ensures
        r matches Some(i) ==> position(views(laws@), id@) == Some(i as nat) && i < laws.len(),
        r is None ==> position(views(laws@), id@) is None,
{
    let mut i: usize = 0;
    while i < laws.len()
        invariant
            i <= laws.len(),
            forall|j: int| 0 <= j < i ==> views(laws@)[j].id != id@,
        decreases laws.len() - i,
    {
        if laws[i].id == *id {
            proof {
                lemma_position_is(views(laws@), id@, i as int);
            }
            return Some(i);
        }
        i = i + 1;
    }
    proof {
        lemma_position(views(laws@), id@);
    }
    None
}

/// A reconciliation under way.
pub struct Merge {
    /// The records, in their order.
    pub laws: Seq<LawInfoView>,
    /// When the document was generated.
    pub generated: Seq<char>,
    /// Where the next new record goes: behind the record of the thread
    /// that was reconciled last, at the front before the first.
    pub cursor: nat,
    /// The channel whose threads are constitutional.
    pub constitution: Seq<char>,
}

impl Merge {
    /// The cursor points into the records or just behind them.
    pub open spec fn wf(self) -> bool {
        self.cursor <= self.laws.len()
    }

    /// The record of `thread` as it stands.
    pub open spec fn current(self, thread: ThreadView) -> Option<LawInfoView> {
        match position(self.laws, thread.id) {
            Some(i) => Some(self.laws[i as int]),
            None => None,
        }
    }

    /// Whether the messages of `thread` are needed to reconcile it.
    pub open spec fn wants(self, thread: ThreadView) -> bool {
        wants_messages(thread, self.current(thread))
    }

    /// The state after `thread` was reconciled. Its record is brought up to
    /// date where it stands, or put in at the cursor if it is new; new
    /// records so keep the order in which their threads come. Nothing
    /// changes where the messages are needed and not given.
    pub open spec fn step(self, thread: ThreadView, digest: Option<Digest>) -> Merge {
        match updated(thread, self.current(thread), self.constitution, digest) {
            Some(info) => match position(self.laws, thread.id) {
                Some(i) => Merge { laws: self.laws.update(i as int, info), cursor: i + 1, ..self },
                None => Merge {
                    laws: self.laws.insert(self.cursor as int, info),
                    cursor: self.cursor + 1,
                    ..self
                },
            },
            None => self,
        }
    }

    /// The state after these threads were reconciled in turn, each with
    /// the digest that `digests` gives for its place.
    pub open spec fn run(self, threads: Seq<ThreadView>, digests: Seq<Option<Digest>>) -> Merge
        decreases threads.len(),
    {
        if threads.len() == 0 {
            self
        } else {
            self.run(threads.drop_last(), digests.drop_last()).step(
                threads.last(),
                digests.last(),
            )
        }
    }
}

/// How a day is written in the document: the short name of its weekday,
/// the day of the month in two columns, and the short name of the month,
/// as in `Wed  3 Nov`. `None` where the three numbers are no date.
pub uninterp spec fn day_label(year: int, month: int, day: int) -> Option<Seq<char>>;

/// `chrono::NaiveDate::from_ymd_opt` gives the date with this year, month
/// and day, or `None` where there is none; `NaiveDate::format` with the
/// pattern `%a %e %b` writes a date from the date alone, in English.
#[verifier::external_body]
fn format_day(year: i32, month: u32, day: u32) -> (r: Option<String>)
    ensures
        match r {
            Some(s) => day_label(year as int, month as int, day as int) == Some(s@),
            None => day_label(year as int, month as int, day as int) is None,
        },
{
    let date = chrono::NaiveDate::from_ymd_opt(year, month, day)?;
    Some(date.format("%a %e %b").to_string())
}

/// The stamp of a document generated on this day, for `Reconciler::finish`.
pub fn generated_on(year: i32, month: u32, day: u32) -> (r: Option<String>)
    ensures
        match r {
            Some(s) => day_label(year as int, month as int, day as int) == Some(s@),
            None => day_label(year as int, month as int, day as int) is None,
        },
{
    format_day(year, month, day)
}

/// What has to be fetched before a thread can be reconciled. The thread
/// comes back with it.
#[derive(Debug)]
pub enum Need {
    /// The latest messages of the thread.
    Messages(Thread),
    /// A name that its transcript shows.
    Name(Thread, Lookup),
}

/// Brings a document of law records up to date, one thread at a time, in
/// the order of the enumeration.
pub struct Reconciler {
    laws: Vec<LawInfo>,
    generated: String,
    cursor: usize,
    constitution: String,
}

impl View for Reconciler {
    type V = Merge;

    closed spec fn view(&self) -> Merge {
        Merge {
            laws: views(self.laws@),
            generated: self.generated@,
            cursor: self.cursor as nat,
            constitution: self.constitution@,
        }
    }
}

impl Reconciler {
    /// Starts from the document of the run before, with the cursor at the
    /// front.
    pub fn new(prior: LawData, constitution: String) -> (r: Reconciler)
        ensures
            r@ == (Merge {
                laws: prior@.laws,
                generated: prior@.generated,
                cursor: 0,
                constitution: constitution@,
            }),
            r@.wf(),
    {
        Reconciler { laws: prior.laws, generated: prior.generated, cursor: 0, constitution }
    }

    /// Whether the messages of `thread` have to be fetched before `update`
    /// can take it.
    pub fn wants_messages(&self, thread: &Thread) -> (r: bool)
        ensures
            r == self@.wants(thread@),
    {
        match find_law(&self.laws, &thread.id) {
            Some(i) => needs_messages(thread, Some(&self.laws[i])),
            None => true,
        }
    }

    /// Reconciles one thread. Where its messages are needed and `content`
    /// is `None`, nothing changes and the thread is handed back: the caller
    /// fetches the messages and calls again with what they amount to.
    pub fn update(&mut self, thread: Thread, content: Option<(String, bool, String)>) -> (r:
        Result<(), Thread>)
        requires
            old(self)@.wf(),
        ensures
            final(self)@ == old(self)@.step(thread@, digest_of(content)),
            final(self)@.wf(),
            r is Err <==> old(self)@.wants(thread@) && content is None,
            r matches Err(t) ==> t == thread,
    {
        let ghost before = views(self.laws@);
        let found = find_law(&self.laws, &thread.id);
        match found {
            Some(i) => {
                match update_info(thread, Some(&self.laws[i]), &self.constitution, content) {
                    Ok(info) => {
                        self.laws.set(i, info);
                        self.cursor = i + 1;
                        assert(views(self.laws@) =~= before.update(i as int, info@));
                        Ok(())
                    },
                    Err(t) => Err(t),
                }
            },
            None => {
                match update_info(thread, None, &self.constitution, content) {
                    Ok(info) => {
                        self.laws.insert(self.cursor, info);
                        assert(self.cursor < self.laws.len());
                        self.cursor = self.cursor + 1;
                        assert(views(self.laws@) =~= before.insert(old(self).cursor as int, info@));
                        Ok(())
                    },
                    Err(t) => Err(t),
                }
            },
        }
    }

    /// Reconciles one thread, from its latest messages, newest first, where
    /// they are needed. What is needed and missing is asked for: first the
    /// messages, then each name of the transcript that `client` has not
    /// resolved, in reading order. The caller fetches it and calls again;
    /// until then nothing changes.
    pub fn reconcile(
        &mut self,
        client: &LawsClient,
        thread: Thread,
        msgs: Option<&Vec<Message>>,
    ) -> (r: Result<(), Need>)
        requires
            old(self)@.wf(),
        ensures
            final(self)@.wf(),
            match r {
                Ok(()) => if old(self)@.wants(thread@) {
                    &&& msgs matches Some(m)
                    &&& transcript_missing(in_order_sent(m@), client@) is None
                    &&& final(self)@ == old(self)@.step(
                        thread@,
                        Some(digest(in_order_sent(m@), client@)),
                    )
                } else {
                    final(self)@ == old(self)@.step(thread@, None)
                },
                Err(Need::Messages(t)) => {
                    &&& t == thread
                    &&& final(self)@ == old(self)@
                    &&& old(self)@.wants(thread@)
                    &&& msgs is None
                },
                Err(Need::Name(t, l)) => {
                    &&& t == thread
                    &&& final(self)@ == old(self)@
                    &&& old(self)@.wants(thread@)
                    &&& msgs matches Some(m)
                    &&& transcript_missing(in_order_sent(m@), client@) == Some(l@)
                },
            },
    {
        if !self.wants_messages(&thread) {
            return match self.update(thread, None) {
                Ok(()) => Ok(()),
                Err(t) => Err(Need::Messages(t)),
            };
        }
        match msgs {
            None => Err(Need::Messages(thread)),
            Some(m) => match get_messages(client, m) {
                Ok(content) => match self.update(thread, Some(content)) {
                    Ok(()) => Ok(()),
                    Err(t) => Err(Need::Messages(t)),
                },
                Err(l) => Err(Need::Name(thread, l)),
            },
        }
    }

    /// The document, stamped with the time of its generation.
    pub fn finish(self, generated: String) -> (d: LawData)
        ensures
            d@.laws == self@.laws,
            d@.generated == generated@,
    {
        LawData { generated, laws: self.laws }
    }
}

/// Whether the record of `thread` among `laws` has seen the thread's last
/// message.
pub open spec fn settled(laws: Seq<LawInfoView>, thread: ThreadView) -> bool {
    match position(laws, thread.id) {
        Some(i) => laws[i as int].last_message_id == thread.last_message_id,
        None => false,
    }
}

/// No two threads share an identifier.
pub open spec fn distinct_threads(threads: Seq<ThreadView>) -> bool {
    forall|i: int, j: int| 0 <= i < j < threads.len() ==> threads[i].id != threads[j].id
}

/// A step keeps the cursor in range.
pub proof fn lemma_step_wf(m: Merge, thread: ThreadView, digest: Option<Digest>)
    requires
        m.wf(),
    ensures
        m.step(thread, digest).wf(),
{
    lemma_position(m.laws, thread.id);
}

/// A step keeps record identifiers unique.
pub proof fn lemma_step_keeps_ids_unique(m: Merge, thread: ThreadView, digest: Option<Digest>)
    requires
        m.wf(),
        unique_ids(m.laws),
    ensures
        unique_ids(m.step(thread, digest).laws),
{
    lemma_position(m.laws, thread.id);
    let after = m.step(thread, digest).laws;
    match updated(thread, m.current(thread), m.constitution, digest) {
        Some(info) => match position(m.laws, thread.id) {
            Some(i) => {
                assert(info.id == m.laws[i as int].id);
                assert forall|a: int, b: int| 0 <= a < b < after.len() implies after[a].id
                    != after[b].id by {
                    assert(after[a].id == m.laws[a].id && after[b].id == m.laws[b].id);
                }
            },
            None => {
                let c = m.cursor as int;
                assert forall|a: int, b: int| 0 <= a < b < after.len() implies after[a].id
                    != after[b].id by {
                    if a != c {
                        assert(after[a] == m.laws[if a < c {
                            a
                        } else {
                            a - 1
                        }]);
                    }
                    if b != c {
                        assert(after[b] == m.laws[if b < c {
                            b
                        } else {
                            b - 1
                        }]);
                    }
                }
            },
        },
        None => {},
    }
}

/// What a step does to the records. Either their number stays, and each
/// keeps its place, its identifier, its interpretation and its category;
/// or one record with the thread's identifier and an empty interpretation
/// is put in at the cursor, and the others keep their order.
pub proof fn lemma_step_keeps_records(m: Merge, thread: ThreadView, digest: Option<Digest>)
    requires
        m.wf(),
    ensures
        ({
            let after = m.step(thread, digest).laws;
            ||| {
                &&& after.len() == m.laws.len()
                &&& forall|k: int|
                    0 <= k < after.len() ==> {
                        &&& after[k].id == m.laws[k].id
                        &&& after[k].interpretation == m.laws[k].interpretation
                        &&& after[k].constitution == m.laws[k].constitution
                        &&& after[k].id != thread.id ==> after[k] == m.laws[k]
                    }
            }
            ||| {
                &&& position(m.laws, thread.id) is None
                &&& after.len() == m.laws.len() + 1
                &&& after[m.cursor as int].id == thread.id
                &&& after[m.cursor as int].interpretation == Seq::<char>::empty()
                &&& after.remove(m.cursor as int) == m.laws
            }
        }),
{
    lemma_position(m.laws, thread.id);
    let after = m.step(thread, digest).laws;
    match updated(thread, m.current(thread), m.constitution, digest) {
        Some(info) => match position(m.laws, thread.id) {
            Some(i) => {},
            None => {
                assert(after.remove(m.cursor as int) =~= m.laws);
            },
        },
        None => {},
    }
}

/// A thread whose record has seen its last message leaves every record as
/// it is: nothing is computed anew.
pub proof fn lemma_settled_thread_changes_nothing(
    m: Merge,
    thread: ThreadView,
    digest: Option<Digest>,
)
    requires
        settled(m.laws, thread),
    ensures
        m.step(thread, digest).laws == m.laws,
{
    lemma_position(m.laws, thread.id);
    let i = position(m.laws, thread.id)->0 as int;
    assert(m.laws.update(i, m.laws[i]) =~= m.laws);
}

/// Once its messages are given, a step settles its thread.
pub proof fn lemma_step_settles(m: Merge, thread: ThreadView, digest: Option<Digest>)
    requires
        m.wf(),
        digest is Some,
    ensures
        settled(m.step(thread, digest).laws, thread),
{
    lemma_position(m.laws, thread.id);
    let after = m.step(thread, digest).laws;
    match position(m.laws, thread.id) {
        Some(i) => {
            assert(after[i as int].id == thread.id);
            assert forall|j: int| 0 <= j < i implies after[j].id != thread.id by {
                assert(after[j] == m.laws[j]);
            }
            lemma_position_is(after, thread.id, i as int);
        },
        None => {
            let c = m.cursor as int;
            assert(after[c].id == thread.id);
            assert forall|j: int| 0 <= j < c implies after[j].id != thread.id by {
                assert(after[j] == m.laws[j]);
            }
            lemma_position_is(after, thread.id, c);
        },
    }
}

/// A step for one thread leaves the record of every other thread settled.
pub proof fn lemma_step_keeps_settled(
    m: Merge,
    thread: ThreadView,
    digest: Option<Digest>,
    other: ThreadView,
)
    requires
        m.wf(),
        other.id != thread.id,
        settled(m.laws, other),
    ensures
        settled(m.step(thread, digest).laws, other),
{
    lemma_position(m.laws, thread.id);
    lemma_position(m.laws, other.id);
    let after = m.step(thread, digest).laws;
    let j = position(m.laws, other.id)->0 as int;
    match updated(thread, m.current(thread), m.constitution, digest) {
        Some(info) => match position(m.laws, thread.id) {
            Some(i) => {
                assert(info.id == thread.id);
                assert(after[j] == m.laws[j]);
                assert forall|k: int| 0 <= k < j implies after[k].id != other.id by {
                    assert(after[k].id == m.laws[k].id);
                }
                lemma_position_is(after, other.id, j);
            },
            None => {
                let c = m.cursor as int;
                let moved = if j < c {
                    j
                } else {
                    j + 1
                };
                assert(after[moved] == m.laws[j]);
                assert forall|k: int| 0 <= k < moved implies after[k].id != other.id by {
                    if k < c {
                        assert(after[k] == m.laws[k]);
                    } else if k > c {
                        assert(after[k] == m.laws[k - 1]);
                    }
                }
                lemma_position_is(after, other.id, moved);
            },
        },
        None => {},
    }
}

/// A run keeps the cursor in range, and record identifiers unique where
/// they were.
pub proof fn lemma_run_wf(m: Merge, threads: Seq<ThreadView>, digests: Seq<Option<Digest>>)
    requires
        m.wf(),
    ensures
        m.run(threads, digests).wf(),
        unique_ids(m.laws) ==> unique_ids(m.run(threads, digests).laws),
    decreases threads.len(),
{
    if threads.len() > 0 {
        let mid = m.run(threads.drop_last(), digests.drop_last());
        lemma_run_wf(m, threads.drop_last(), digests.drop_last());
        lemma_step_wf(mid, threads.last(), digests.last());
        if unique_ids(m.laws) {
            lemma_step_keeps_ids_unique(mid, threads.last(), digests.last());
        }
    }
}

/// A run over threads whose records have all seen their last messages
/// leaves every record as it is.
pub proof fn lemma_settled_run_changes_nothing(
    m: Merge,
    threads: Seq<ThreadView>,
    digests: Seq<Option<Digest>>,
)
    requires
        forall|k: int| 0 <= k < threads.len() ==> settled(m.laws, #[trigger] threads[k]),
    ensures
        m.run(threads, digests).laws == m.laws,
    decreases threads.len(),
{
    if threads.len() > 0 {
        let front = threads.drop_last();
        assert forall|k: int| 0 <= k < front.len() implies settled(
            m.laws,
            #[trigger] front[k],
        ) by {
            assert(front[k] == threads[k]);
        }
        lemma_settled_run_changes_nothing(m, front, digests.drop_last());
        assert(settled(m.laws, threads[threads.len() - 1]));
        lemma_settled_thread_changes_nothing(
            m.run(front, digests.drop_last()),
            threads.last(),
            digests.last(),
        );
    }
}

/// After a run over distinct threads, with the messages of each given,
/// the record of every thread has seen the thread's last message.
pub proof fn lemma_run_settles(m: Merge, threads: Seq<ThreadView>, digests: Seq<Option<Digest>>)
    requires
        m.wf(),
        distinct_threads(threads),
        digests.len() == threads.len(),
        forall|k: int| 0 <= k < digests.len() ==> (#[trigger] digests[k]) is Some,
    ensures
        forall|k: int|
            0 <= k < threads.len() ==> settled(
                m.run(threads, digests).laws,
                #[trigger] threads[k],
            ),
    decreases threads.len(),
{
    if threads.len() > 0 {
        let front = threads.drop_last();
        let given = digests.drop_last();
        let mid = m.run(front, given);
        assert(distinct_threads(front)) by {
            assert forall|i: int, j: int| 0 <= i < j < front.len() implies front[i].id
                != front[j].id by {
                assert(front[i] == threads[i] && front[j] == threads[j]);
            }
        }
        assert forall|k: int| 0 <= k < given.len() implies (#[trigger] given[k]) is Some by {
            assert(given[k] == digests[k]);
        }
        lemma_run_settles(m, front, given);
        lemma_run_wf(m, front, given);
        assert(digests.last() == digests[digests.len() - 1]);
        lemma_step_settles(mid, threads.last(), digests.last());
        assert forall|k: int| 0 <= k < threads.len() implies settled(
            m.run(threads, digests).laws,
            #[trigger] threads[k],
        ) by {
            if k < front.len() {
                assert(front[k] == threads[k]);
                assert(settled(mid.laws, front[k]));
                lemma_step_keeps_settled(mid, threads.last(), digests.last(), threads[k]);
            }
        }
    }
}

/// Reconciling twice changes nothing the second time. Let a first run
/// reconcile distinct threads, with the messages of each given. A second
/// run over the same threads, from the front of what the first run left,
/// leaves every record as it is, whatever messages it is given.
pub proof fn lemma_second_run_changes_nothing(
    m: Merge,
    threads: Seq<ThreadView>,
    first: Seq<Option<Digest>>,
    second: Seq<Option<Digest>>,
)
    requires
        m.wf(),
        distinct_threads(threads),
        first.len() == threads.len(),
        forall|k: int| 0 <= k < first.len() ==> (#[trigger] first[k]) is Some,
    ensures
        ({
            let once = m.run(threads, first);
            let again = (Merge { cursor: 0, ..once }).run(threads, second);
            again.laws == once.laws
        }),
{
    let once = m.run(threads, first);
    lemma_run_settles(m, threads, first);
    lemma_settled_run_changes_nothing(Merge { cursor: 0, ..once }, threads, second);
}

} // verus!
