//! Enumeration of the threads of the watched channels, page by page, and
//! their order by recency.

use crate::discord_structs::{views, Thread, ThreadList, ThreadListView, ThreadView};
use crate::net::{threads_endpoint, threads_uri, LawError};
use crate::text::{
    chars_of, lemma_bytes_le_total, lemma_bytes_le_transitive, len_until, scan_until, str_le,
    substring, text_le,
};
use vstd::multiset::Multiset;
use vstd::prelude::*;
use vstd::string::*;
use vstd::utf8::encode_utf8;

verus! {

/// Whether `a` was archived no earlier than `b`, by their timestamps.
pub open spec fn no_older(a: ThreadView, b: ThreadView) -> bool {
    text_le(b.thread_metadata.archive_timestamp, a.thread_metadata.archive_timestamp)
}

/// Each thread is no older than those after it.
pub open spec fn newest_first(s: Seq<ThreadView>) -> bool {
    forall|i: int, j: int| 0 <= i < j < s.len() ==> no_older(s[i], s[j])
}

/// Among threads that stand newest first, one that was archived strictly
/// later than another stands before it, wherever the two were listed.
pub proof fn lemma_later_thread_stands_first(s: Seq<ThreadView>, i: int, j: int)
    requires
        newest_first(s),
        0 <= i < s.len(),
        0 <= j < s.len(),
        !no_older(s[j], s[i]),
    ensures
        i < j,
{
    if i == j {
        lemma_bytes_le_total(
            encode_utf8(s[i].thread_metadata.archive_timestamp),
            encode_utf8(s[i].thread_metadata.archive_timestamp),
        );
    }
}

/// The query that continues a listing after a page whose last thread has
/// this timestamp: the timestamp without its time zone.
pub open spec fn cursor(timestamp: Seq<char>) -> Seq<char> {
    "?before="@ + timestamp.take(len_until(timestamp, '+') as int)
}

/// Where an enumeration stands.
pub struct Progress {
    pub channels: Seq<Seq<char>>,
    pub kinds: Seq<Seq<char>>,
    /// The channel and the kind of thread that are listed now.
    pub channel: nat,
    pub kind: nat,
    /// The query that continues the listing, empty at its first page.
    pub before: Seq<char>,
    /// The threads listed so far.
    pub threads: Seq<ThreadView>,
}

impl Progress {
    /// Whether a page is still to be asked for.
    pub open spec fn pending(self) -> bool {
        self.channel < self.channels.len() && self.kind < self.kinds.len()
    }

    /// The endpoint of the page to ask for.
    pub open spec fn uri(self) -> Seq<char> {
        threads_uri(self.channels[self.channel as int], self.kinds[self.kind as int], self.before)
    }

    /// Whether `page` is refused: it announces more pages and holds no
    /// thread to continue after.
    pub open spec fn refuses(self, page: ThreadListView) -> bool {
        self.pending() && page.has_more && page.threads.len() == 0
    }

    /// The state after `page` came in answer to the pending request. Its
    /// threads are added. Where more pages are announced the listing
    /// continues after the last thread of the page; else the next kind, or
    /// the first kind of the next channel, is listed from its first page.
    pub open spec fn accept(self, page: ThreadListView) -> Progress {
        if !self.pending() || self.refuses(page) {
            self
        } else if page.has_more {
            Progress {
                before: cursor(page.threads.last().thread_metadata.archive_timestamp),
                threads: self.threads + page.threads,
                ..self
            }
        } else if self.kind + 1 < self.kinds.len() {
            Progress {
                kind: self.kind + 1,
                before: Seq::empty(),
                threads: self.threads + page.threads,
                ..self
            }
        } else {
            Progress {
                channel: self.channel + 1,
                kind: 0,
                before: Seq::empty(),
                threads: self.threads + page.threads,
                ..self
            }
        }
    }
}

/// Walks the listings of every channel and kind of thread, one page at a
/// time: `request` says what to fetch, `accept` takes what came back.
pub struct Enumerator {
    channels: Vec<String>,
    kinds: Vec<String>,
    channel: usize,
    kind: usize,
    before: String,
    threads: Vec<Thread>,
}

impl View for Enumerator {
    type V = Progress;

    closed spec fn view(&self) -> Progress {
        Progress {
            channels: self.channels@.map_values(|s: String| s@),
            kinds: self.kinds@.map_values(|s: String| s@),
            channel: self.channel as nat,
            kind: self.kind as nat,
            before: self.before@,
            threads: views(self.threads@),
        }
    }
}

/// The query that continues a listing after a thread with this timestamp.
pub fn cursor_after(timestamp: &str) -> (r: String)
    ensures
        r@ == cursor(timestamp@),
{
    let chars = chars_of(timestamp);
    let end = scan_until(&chars, 0, '+');
    assert(chars@.skip(0) =~= chars@);
    let zoneless = substring(&chars, 0, end);
    let mut r = String::from_str("?before=");
    r.append(zoneless.as_str());
    r
}

impl Enumerator {
    /// Starts at the first kind of the first channel, with no thread listed.
    pub fn new(channels: Vec<String>, kinds: Vec<String>) -> (e: Enumerator)
        ensures
            e@ == (Progress {
                channels: channels@.map_values(|s: String| s@),
                kinds: kinds@.map_values(|s: String| s@),
                channel: 0,
                kind: 0,
                before: Seq::empty(),
                threads: Seq::empty(),
            }),
    {
        let e = Enumerator {
            channels,
            kinds,
            channel: 0,
            kind: 0,
            before: String::new(),
            threads: Vec::new(),
        };
        assert(e@.threads =~= Seq::<ThreadView>::empty());
        e
    }

    /// The endpoint of the next page, or `None` when every listing has
    /// been read to its end.
    pub fn request(&self) -> (r: Option<String>)
        ensures
            match r {
                Some(uri) => self@.pending() && uri@ == self@.uri(),
                None => !self@.pending(),
            },
    {
        if self.channel < self.channels.len() && self.kind < self.kinds.len() {
            Some(
                threads_endpoint(
                    self.channels[self.channel].as_str(),
                    self.kinds[self.kind].as_str(),
                    self.before.as_str(),
                ),
            )
        } else {
            None
        }
    }

    /// Takes the page that came in answer to the pending request. A page
    /// that announces more pages and is empty is refused, and so the
    /// enumeration cannot go round in circles; a page that comes when
    /// nothing is pending is left aside.
    pub fn accept(&mut self, page: ThreadList) -> (r: Result<(), LawError>)
        ensures
            final(self)@ == old(self)@.accept(page@),
            r is Err <==> old(self)@.refuses(page@),
            r matches Err(e) ==> e is EmptyPage,
    {
        if !(self.channel < self.channels.len() && self.kind < self.kinds.len()) {
            return Ok(());
        }
        let mut fresh = page.threads;
        let ghost added = views(fresh@);
        let ghost had = views(self.threads@);
        if page.has_more {
            if fresh.len() == 0 {
                return Err(LawError::EmptyPage);
            }
            self.before = cursor_after(
                fresh[fresh.len() - 1].thread_metadata.archive_timestamp.as_str(),
            );
        } else {
            self.before = String::new();
            if self.kind + 1 < self.kinds.len() {
                self.kind = self.kind + 1;
            } else {
                self.channel = self.channel + 1;
                self.kind = 0;
            }
        }
        self.threads.append(&mut fresh);
        assert(views(self.threads@) =~= had + added);
        Ok(())
    }

    /// The threads listed so far.
    pub fn listed(&self) -> (n: usize)
        ensures
            n == self@.threads.len(),
    {
        self.threads.len()
    }

    /// The threads listed, the most recently archived first, whichever
    /// listing each came from.
    pub fn get_threads(self) -> (sorted: Vec<Thread>)
        ensures
            newest_first(views(sorted@)),
            views(sorted@).to_multiset() == self@.threads.to_multiset(),
    {
        sort_by_recency(self.threads)
    }
}

/// Whether `a` was archived no earlier than `b`.
pub fn is_no_older(a: &Thread, b: &Thread) -> (r: bool)
    ensures
        r == no_older(a@, b@),
{
    str_le(
        b.thread_metadata.archive_timestamp.as_str(),
        a.thread_metadata.archive_timestamp.as_str(),
    )
}

/// Orders threads by their archive timestamps, the latest first.
pub fn sort_by_recency(threads: Vec<Thread>) -> (sorted: Vec<Thread>)
    ensures
        newest_first(views(sorted@)),
        views(sorted@).to_multiset() == views(threads@).to_multiset(),
{
    broadcast use {
        vstd::seq_lib::group_to_multiset_ensures,
        vstd::multiset::group_multiset_axioms,
    };

    let mut rest = threads;
    let mut sorted: Vec<Thread> = Vec::new();
    assert(views(sorted@) =~= Seq::<ThreadView>::empty());
    assert(views(sorted@).to_multiset() =~= Multiset::<ThreadView>::empty());
    assert(views(sorted@).to_multiset().add(views(rest@).to_multiset()) =~= views(
        threads@,
    ).to_multiset());
    while rest.len() > 0
        invariant
            newest_first(views(sorted@)),
            views(sorted@).to_multiset().add(views(rest@).to_multiset()) == views(
                threads@,
            ).to_multiset(),
        decreases rest.len(),
    {
        let ghost rest_before = views(rest@);
        let ghost sorted_before = views(sorted@);
        let t = rest.pop().unwrap();
        assert(views(rest@) =~= rest_before.drop_last());
        assert(rest_before =~= views(rest@).push(t@));
        let mut p: usize = 0;
        while p < sorted.len() && is_no_older(&sorted[p], &t)
            invariant
                p <= sorted.len(),
                sorted_before == views(sorted@),
                forall|q: int| 0 <= q < p ==> no_older(sorted_before[q], t@),
            decreases sorted.len() - p,
        {
            assert(sorted_before[p as int] == sorted@[p as int]@);
            p = p + 1;
        }
        proof {
            if p < sorted.len() {
                let at = sorted_before[p as int];
                assert(at == sorted@[p as int]@);
                lemma_bytes_le_total(
                    encode_utf8(t@.thread_metadata.archive_timestamp),
                    encode_utf8(at.thread_metadata.archive_timestamp),
                );
                assert(no_older(t@, at));
                assert forall|j: int| p <= j < sorted_before.len() implies no_older(
                    t@,
                    sorted_before[j],
                ) by {
                    if j > p {
                        assert(no_older(sorted_before[p as int], sorted_before[j]));
                        lemma_bytes_le_transitive(
                            encode_utf8(sorted_before[j].thread_metadata.archive_timestamp),
                            encode_utf8(at.thread_metadata.archive_timestamp),
                            encode_utf8(t@.thread_metadata.archive_timestamp),
                        );
                    }
                }
            }
        }
        sorted.insert(p, t);
        proof {
            let now = views(sorted@);
            assert(now =~= sorted_before.insert(p as int, t@));
            assert forall|i: int, j: int| 0 <= i < j < now.len() implies no_older(
                now[i],
                now[j],
            ) by {
                if i < p && j > p {
                    assert(now[i] == sorted_before[i] && now[j] == sorted_before[j - 1]);
                } else if i == p {
                    assert(now[j] == sorted_before[j - 1]);
                } else if j == p {
                    assert(now[i] == sorted_before[i]);
                } else if j < p {
                    assert(now[i] == sorted_before[i] && now[j] == sorted_before[j]);
                } else {
                    assert(now[i] == sorted_before[i - 1] && now[j] == sorted_before[j - 1]);
                }
            }
            vstd::seq_lib::to_multiset_insert(sorted_before, p as int, t@);
            vstd::seq_lib::to_multiset_build(views(rest@), t@);
            assert(now.to_multiset().add(views(rest@).to_multiset())
                =~= sorted_before.to_multiset().add(rest_before.to_multiset()));
        }
    }
    assert(views(rest@) =~= Seq::<ThreadView>::empty());
    assert(views(rest@).to_multiset() =~= Multiset::<ThreadView>::empty());
    assert(views(sorted@).to_multiset().add(views(rest@).to_multiset()) =~= views(
        sorted@,
    ).to_multiset());
    sorted
}

} // verus!
