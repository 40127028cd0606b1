//! The bookkeeping of a log that keeps one event per line: how its sequences
//! are recovered, continued, and read back.

use std::collections::HashMap;

use vstd::prelude::*;

use crate::message::Error;
use crate::text::{cat2, cat3, trim, trimmed};

verus! {

/// What the log reads of an event: whose it is, and its place in that session.
#[derive(Debug, Clone, Copy, PartialEq, Eq, Structural)]
pub struct EventMark {
    pub session_id: u128,
    pub sequence: Option<u64>,
}

/// Which version of a session a batch was written for.
#[derive(Debug, Clone, Copy, PartialEq, Eq, Structural)]
pub enum ExpectedVersion {
    /// Whichever it is.
    Any,
    /// The one whose last event has this sequence.
    Exact(u64),
}

/// Why a batch is refused.
pub ghost enum Refusal {
    Conflict { expected: u64, actual: int },
    OtherSession,
}

/// Why a batch is refused by a session whose last event has the sequence
/// `actual`, if it is.
pub open spec fn refusal(
    actual: int,
    session_id: u128,
    expected: ExpectedVersion,
    requests: Seq<u128>,
) -> Option<Refusal> {
    if expected matches ExpectedVersion::Exact(e) && e != actual {
        Some(Refusal::Conflict { expected: expected->0, actual })
    } else if exists|i: int| 0 <= i < requests.len() && #[trigger] requests[i] != session_id {
        Some(Refusal::OtherSession)
    } else {
        None
    }
}

/// Whether a failure is this refusal.
pub open spec fn is_refusal(e: Error, refused: Refusal) -> bool {
    match refused {
        Refusal::Conflict { expected, actual } => e matches Error::EventConflict {
            expected: x,
            actual: y,
        } && x == expected && y == actual,
        Refusal::OtherSession => e.is_event_log("event batch contains a different session"@),
    }
}

/// Which events of a session to read.
#[derive(Debug, Clone, Copy, PartialEq, Eq, Structural)]
pub struct EventRange {
    pub session_id: u128,
    /// Only those after this one.
    pub after: Option<u64>,
    /// Only those up to this one.
    pub through: Option<u64>,
    /// At most this many.
    pub limit: usize,
}

/// One page of events.
#[derive(Debug)]
pub struct EventPage {
    /// The positions of the events in the log.
    pub events: Vec<usize>,
    /// After which sequence the next page begins, if there is one.
    pub next: Option<u64>,
    /// The last sequence of the session.
    pub head: u64,
}

/// Whether a line of the log holds nothing.
pub fn is_blank(line: &str) -> (r: bool)
    ensures
        r == (trimmed(line@).len() == 0),
{
    trim(line).as_str().is_empty()
}

/// The failure to read a line of the log.
pub fn corrupt_line(detail: &str) -> (r: Error)
    ensures
        r.is_event_log("corrupt log line: "@ + detail@),
{
    Error::EventLog(cat2("corrupt log line: ", detail))
}

/// The last sequence that a session has among these events: zero without any.
pub open spec fn last_sequence(events: Seq<EventMark>, session_id: u128) -> int
    decreases events.len(),
{
    if events.len() == 0 {
        0
    } else {
        let before = last_sequence(events.drop_last(), session_id);
        match events.last().sequence {
            Some(sequence) if events.last().session_id == session_id && sequence > before => sequence
                as int,
            _ => before,
        }
    }
}

/// The first event that has no sequence.
pub open spec fn first_unnumbered(events: Seq<EventMark>) -> Option<int>
    decreases events.len(),
{
    if events.len() == 0 {
        None
    } else {
        match first_unnumbered(events.drop_last()) {
            Some(i) => Some(i),
            None => if events.last().sequence is None {
                Some(events.len() - 1)
            } else {
                None
            },
        }
    }
}

/// The sequence that follows the last one of a session, for each session.
pub struct JsonlEventLog {
    sequences: HashMap<u128, u64>,
}

/// Whether an event is one that a reader of a range wants.
pub open spec fn in_range(event: EventMark, session_id: u128, after: int, through: int) -> bool {
    event.session_id == session_id && (event.sequence matches Some(s) && after < s <= through)
}

/// The positions of the events that a reader wants, in the order of the log.
pub open spec fn positions(events: Seq<EventMark>, session_id: u128, after: int, through: int) -> Seq<
    int,
>
    decreases events.len(),
{
    if events.len() == 0 {
        Seq::empty()
    } else {
        let before = positions(events.drop_last(), session_id, after, through);
        if in_range(events.last(), session_id, after, through) {
            before.push(events.len() - 1)
        } else {
            before
        }
    }
}

/// The positions of the events that a range is about.
pub open spec fn wanted(events: Seq<EventMark>, range: EventRange) -> Seq<int> {
    positions(
        events,
        range.session_id,
        match range.after {
            Some(s) => s as int,
            None => 0,
        },
        match range.through {
            Some(s) => s as int,
            None => u64::MAX as int,
        },
    )
}

/// Whether this is the page of a range: as many of its events as fit, the last
/// of them where there are more, and the head of the session.
pub open spec fn is_page(
    page: EventPage,
    events: Seq<EventMark>,
    range: EventRange,
    head: int,
) -> bool {
    let all = wanted(events, range);
    let shown = if all.len() > range.limit {
        all.take(range.limit as int)
    } else {
        all
    };
    &&& page.head == head
    &&& ints(page.events@) == shown
    &&& page.next == if all.len() > range.limit && range.limit > 0 {
        events[shown.last()].sequence
    } else {
        None
    }
}

proof fn lemma_positions(events: Seq<EventMark>, session_id: u128, after: int, through: int)
    ensures
        forall|k: int|
            0 <= k < positions(events, session_id, after, through).len() ==> 0 <= #[trigger] positions(
                events,
                session_id,
                after,
                through,
            )[k] < events.len() && in_range(
                events[positions(events, session_id, after, through)[k]],
                session_id,
                after,
                through,
            ),
        forall|i: int|
            0 <= i < events.len() && in_range(#[trigger] events[i], session_id, after, through)
                ==> positions(events, session_id, after, through).contains(i),
    decreases events.len(),
{
    if events.len() > 0 {
        let front = events.drop_last();
        lemma_positions(front, session_id, after, through);
        let p = positions(front, session_id, after, through);
        let q = positions(events, session_id, after, through);
        assert forall|k: int| 0 <= k < q.len() implies 0 <= #[trigger] q[k] < events.len()
            && in_range(events[q[k]], session_id, after, through) by {
            if k < p.len() {
                assert(q[k] == p[k]);
                assert(front[p[k]] == events[p[k]]);
            }
        }
        assert forall|i: int|
            0 <= i < events.len() && in_range(
                #[trigger] events[i],
                session_id,
                after,
                through,
            ) implies q.contains(i) by {
            if i < front.len() {
                assert(front[i] == events[i]);
                assert(p.contains(i));
                let k = choose|k: int| 0 <= k < p.len() && p[k] == i;
                assert(q[k] == i);
            } else {
                assert(q[q.len() - 1] == i);
            }
        }
    }
}

/// Whether the event at position `a` is read before the one at position `b`:
/// by its sequence, and by its place in the log among equal ones.
pub open spec fn reads_before(events: Seq<EventMark>, a: int, b: int) -> bool {
    let x = events[a].sequence.unwrap();
    let y = events[b].sequence.unwrap();
    x < y || (x == y && a < b)
}

/// Whether these are the positions of the events of a session after a
/// sequence, in the order they are read.
pub open spec fn is_reading(
    events: Seq<EventMark>,
    session_id: u128,
    after: int,
    r: Seq<int>,
) -> bool {
    &&& forall|k: int|
        0 <= k < r.len() ==> 0 <= #[trigger] r[k] < events.len() && in_range(
            events[r[k]],
            session_id,
            after,
            u64::MAX as int,
        )
    &&& forall|k: int, l: int|
        0 <= k < l < r.len() ==> reads_before(events, #[trigger] r[k], #[trigger] r[l])
    &&& forall|i: int|
        0 <= i < events.len() && in_range(#[trigger] events[i], session_id, after, u64::MAX as int)
            ==> r.contains(i)
}

/// The positions as numbers without bound.
pub open spec fn ints(r: Seq<usize>) -> Seq<int> {
    r.map_values(|i: usize| i as int)
}

impl JsonlEventLog {
    /// The last sequence of a session: zero before its first event.
    pub closed spec fn head_of(&self, session_id: u128) -> int {
        if self.sequences@.contains_key(session_id) {
            self.sequences@[session_id] as int
        } else {
            0
        }
    }

    /// A log that holds these events. Every event of a log has a sequence, so
    /// one without is a failure rather than a numbering that starts over.
    pub fn new(events: &Vec<EventMark>, session_names: &Vec<String>) -> (r: Result<Self, Error>)
        requires
            session_names@.len() == events@.len(),
        ensures
            match first_unnumbered(events@) {
                None => r matches Ok(log) && forall|session_id: u128|
                    #[trigger]
                    log.head_of(session_id) == last_sequence(events@, session_id),
                Some(i) => r matches Err(e) && e.is_event_log(
                    "log line for session "@ + session_names@[i]@ + " has no sequence"@,
                ),
            },
    {
        let mut log = JsonlEventLog { sequences: HashMap::new() };
        let mut i: usize = 0;
        assert forall|session_id: u128| #[trigger]
            log.head_of(session_id) == last_sequence(events@.take(0), session_id) by {}
        while i < events.len()
            invariant
                i <= events@.len(),
                session_names@.len() == events@.len(),
                first_unnumbered(events@.take(i as int)) is None,
                forall|session_id: u128| #[trigger]
                    log.head_of(session_id) == last_sequence(events@.take(i as int), session_id),
            decreases events.len() - i,
        {
            let ghost done = events@.take(i as int);
            let ghost more = events@.take(i + 1);
            assert(more.drop_last() =~= done);
            let event = events[i];
            let sequence = match event.sequence {
                Some(sequence) => sequence,
                None => {
                    proof {
                        lemma_first_unnumbered_stays(events@, i + 1);
                    }
                    return Err(
                        Error::EventLog(
                            cat3(
                                "log line for session ",
                                session_names[i].as_str(),
                                " has no sequence",
                            ),
                        ),
                    );
                },
            };
            let ghost before = log;
            let last = log.head(event.session_id);
            if sequence > last {
                log.sequences.insert(event.session_id, sequence);
            }
            assert forall|session_id: u128| #[trigger]
                log.head_of(session_id) == last_sequence(more, session_id) by {
                assert(before.head_of(session_id) == last_sequence(done, session_id));
            }
            i += 1;
        }
        assert(events@.take(i as int) =~= events@);
        Ok(log)
    }

    /// The last sequence of a session: zero before its first event.
    pub fn head(&self, session_id: u128) -> (r: u64)
        ensures
            r == self.head_of(session_id),
    {
        match self.sequences.get(&session_id) {
            Some(sequence) => *sequence,
            None => 0,
        }
    }

    /// Refuse a batch for another version of the session, which is a conflict,
    /// and one that holds an event of another session.
    pub fn check_batch(
        &self,
        session_id: u128,
        expected: ExpectedVersion,
        requests: &Vec<u128>,
    ) -> (r: Result<(), Error>)
        ensures
            match refusal(self.head_of(session_id), session_id, expected, requests@) {
                Some(refused) => r matches Err(e) && is_refusal(e, refused),
                None => r is Ok,
            },
    {
        let actual = self.head(session_id);
        if let ExpectedVersion::Exact(version) = expected {
            if version != actual {
                return Err(Error::EventConflict { expected: version, actual });
            }
        }
        let mut i: usize = 0;
        while i < requests.len()
            invariant
                i <= requests@.len(),
                actual == self.head_of(session_id),
                !(expected matches ExpectedVersion::Exact(e) && e != actual),
                forall|k: int| 0 <= k < i ==> #[trigger] requests@[k] == session_id,
            decreases requests.len() - i,
        {
            if requests[i] != session_id {
                assert(requests@[i as int] != session_id);
                return Err(
                    Error::EventLog("event batch contains a different session".to_owned()),
                );
            }
            i += 1;
        }
        Ok(())
    }

    /// The sequences that the events of a batch get: those that follow the
    /// last one. A batch that [`JsonlEventLog::check_batch`] refuses gets none.
    pub fn plan_batch(
        &self,
        session_id: u128,
        expected: ExpectedVersion,
        requests: &Vec<u128>,
    ) -> (r: Result<Vec<u64>, Error>)
        requires
            refusal(self.head_of(session_id), session_id, expected, requests@) is None
                ==> self.head_of(session_id) + requests@.len() <= u64::MAX,
        ensures
            match refusal(self.head_of(session_id), session_id, expected, requests@) {
                Some(refused) => r matches Err(e) && is_refusal(e, refused),
                None => r matches Ok(sequences) && sequences@.len() == requests@.len() && forall|
                    i: int,
                |
                    0 <= i < sequences@.len() ==> #[trigger] sequences@[i] == self.head_of(
                        session_id,
                    ) + i + 1,
            },
    {
        if let Err(e) = self.check_batch(session_id, expected, requests) {
            return Err(e);
        }
        let actual = self.head(session_id);
        let mut sequences: Vec<u64> = Vec::new();
        let mut i: usize = 0;
        while i < requests.len()
            invariant
                sequences@.len() == i <= requests@.len(),
                actual + requests@.len() <= u64::MAX,
                forall|k: int| 0 <= k < i ==> #[trigger] sequences@[k] == actual + k + 1,
            decreases requests.len() - i,
        {
            sequences.push(actual + i as u64 + 1);
            i += 1;
        }
        Ok(sequences)
    }

    /// Record that a batch of this many events was written.
    pub fn commit(&mut self, session_id: u128, count: usize)
        requires
            old(self).head_of(session_id) + count <= u64::MAX,
        ensures
            forall|other: u128| #[trigger]
                final(self).head_of(other) == if other == session_id {
                    old(self).head_of(session_id) + count
                } else {
                    old(self).head_of(other)
                },
    {
        if count > 0 {
            let actual = self.head(session_id);
            self.sequences.insert(session_id, actual + count as u64);
        }
    }

    /// The events of a session after a sequence, by their sequence. Events that
    /// share one stay in the order of the log.
    pub fn read_after(events: &Vec<EventMark>, session_id: u128, after: Option<u64>) -> (r: Vec<
        usize,
    >)
        ensures
            is_reading(
                events@,
                session_id,
                match after {
                    Some(s) => s as int,
                    None => 0,
                },
                ints(r@),
            ),
    {
        let from: u64 = match after {
            Some(s) => s,
            None => 0,
        };
        let mut r: Vec<usize> = Vec::new();
        let mut i: usize = 0;
        while i < events.len()
            invariant
                i <= events@.len(),
                reading_so_far(events@, session_id, from as int, ints(r@), i as int),
            decreases events.len() - i,
        {
            let event = events[i];
            let wanted = event.session_id == session_id && (match event.sequence {
                Some(s) => s > from,
                None => false,
            });
            let ghost before = ints(r@);
            if wanted {
                let mut at: usize = r.len();
                loop
                    invariant
                        at <= r@.len(),
                        i < events@.len(),
                        before == ints(r@),
                        reading_so_far(events@, session_id, from as int, before, i as int),
                        in_range(events@[i as int], session_id, from as int, u64::MAX as int),
                        forall|k: int|
                            at <= k < before.len() ==> events@[#[trigger] before[k]].sequence->0
                                > events@[i as int].sequence->0,
                    ensures
                        at <= r@.len(),
                        at > 0 ==> events@[before[at - 1]].sequence->0
                            <= events@[i as int].sequence->0,
                    decreases at,
                {
                    if at == 0 {
                        break;
                    }
                    let earlier = r[at - 1];
                    assert(before[at - 1] == earlier as int);
                    if !after_event(events, earlier, i) {
                        break;
                    }
                    at -= 1;
                }
                proof {
                    lemma_reading_grows(
                        events@,
                        session_id,
                        from as int,
                        before,
                        i as int,
                        at as int,
                    );
                }
                r.insert(at, i);
                assert(ints(r@) =~= before.insert(at as int, i as int));
            } else {
                assert(reading_so_far(events@, session_id, from as int, before, i + 1));
            }
            i += 1;
        }
        r
    }

    /// One page of the events of a session, in the order of the log.
    pub fn read_page(&self, events: &Vec<EventMark>, range: EventRange) -> (r: EventPage)
        ensures
            is_page(r, events@, range, self.head_of(range.session_id)),
    {
        let head = self.head(range.session_id);
        let after: u64 = match range.after {
            Some(s) => s,
            None => 0,
        };
        let through: u64 = match range.through {
            Some(s) => s,
            None => u64::MAX,
        };
        let ghost all = positions(
            events@,
            range.session_id,
            after as int,
            through as int,
        );
        let mut shown: Vec<usize> = Vec::new();
        let mut has_more = false;
        let mut i: usize = 0;
        assert(ints(shown@) =~= Seq::<int>::empty());
        while i < events.len() && !has_more
            invariant
                i <= events@.len(),
                all == positions(events@, range.session_id, after as int, through as int),
                shown@.len() <= range.limit,
                !has_more ==> ints(shown@) == positions(
                    events@.take(i as int),
                    range.session_id,
                    after as int,
                    through as int,
                ),
                has_more ==> all.len() > range.limit && ints(shown@) == all.take(
                    range.limit as int,
                ),
            decreases events.len() - i + (if has_more {
                0int
            } else {
                1
            }),
        {
            let event = events[i];
            let ghost done = events@.take(i as int);
            let ghost more = events@.take(i + 1);
            let ghost before = ints(shown@);
            assert(more.drop_last() =~= done);
            let wanted = event.session_id == range.session_id && (match event.sequence {
                Some(s) => s > after && s <= through,
                None => false,
            });
            assert(wanted == in_range(
                more.last(),
                range.session_id,
                after as int,
                through as int,
            ));
            if wanted {
                if shown.len() == range.limit {
                    has_more = true;
                    proof {
                        lemma_positions_prefix(
                            events@,
                            range.session_id,
                            after as int,
                            through as int,
                            i + 1,
                        );
                        assert(all.take(before.len() as int) =~= before) by {
                            let p = positions(
                                more,
                                range.session_id,
                                after as int,
                                through as int,
                            );
                            assert(p =~= before.push(i as int));
                            assert(all.take(p.len() as int) =~= p);
                            assert(all.take(p.len() as int).take(before.len() as int) =~= all.take(
                                before.len() as int,
                            ));
                        }
                    }
                } else {
                    shown.push(i);
                    assert(ints(shown@) =~= before.push(i as int));
                }
            }
            i += 1;
        }
        assert(!has_more ==> events@.take(i as int) =~= events@);
        let next: Option<u64> = if has_more && shown.len() > 0 {
            let last = shown[shown.len() - 1];
            proof {
                lemma_positions(events@, range.session_id, after as int, through as int);
                assert(ints(shown@).last() == last as int);
                assert(all.take(range.limit as int)[shown@.len() - 1] == all[shown@.len() - 1]);
            }
            events[last].sequence
        } else {
            None
        };
        EventPage { events: shown, next, head }
    }

    /// One page of the events of a session, of a log that can be read only up to
    /// a failure. What follows the page is not looked at, so the failure is one
    /// of the page only where the events before it do not fill the page and
    /// show that there are more.
    pub fn read_page_until(
        &self,
        events: &Vec<EventMark>,
        failure: Option<Error>,
        range: EventRange,
    ) -> (r: Result<EventPage, Error>)
        ensures
            match failure {
                Some(e) => if wanted(events@, range).len() <= range.limit {
                    r == Err::<EventPage, Error>(e)
                } else {
                    r matches Ok(page) && is_page(
                        page,
                        events@,
                        range,
                        self.head_of(range.session_id),
                    )
                },
                None => r matches Ok(page) && is_page(
                    page,
                    events@,
                    range,
                    self.head_of(range.session_id),
                ),
            },
    {
        if let Some(e) = failure {
            let full = if range.limit < usize::MAX {
                let wider = EventRange { limit: range.limit + 1, ..range };
                let page = self.read_page(events, wider);
                assert(wanted(events@, wider) == wanted(events@, range));
                assert(page.events@.len() == ints(page.events@).len());
                page.events.len() > range.limit
            } else {
                proof {
                    lemma_wanted_len(events@, range);
                    assert(events@.len() == events.len());
                }
                false
            };
            if !full {
                return Err(e);
            }
        }
        Ok(self.read_page(events, range))
    }
}

proof fn lemma_wanted_len(events: Seq<EventMark>, range: EventRange)
    ensures
        wanted(events, range).len() <= events.len(),
    decreases events.len(),
{
    if events.len() > 0 {
        lemma_wanted_len(events.drop_last(), range);
    }
}

/// The positions of a longer log begin with those of a shorter one.
proof fn lemma_positions_prefix(
    events: Seq<EventMark>,
    session_id: u128,
    after: int,
    through: int,
    n: int,
)
    requires
        0 <= n <= events.len(),
    ensures
        positions(events.take(n), session_id, after, through).len() <= positions(
            events,
            session_id,
            after,
            through,
        ).len(),
        positions(events, session_id, after, through).take(
            positions(events.take(n), session_id, after, through).len() as int,
        ) == positions(events.take(n), session_id, after, through),
    decreases events.len(),
{
    let p = positions(events.take(n), session_id, after, through);
    if n == events.len() {
        assert(events.take(n) =~= events);
        assert(p.take(p.len() as int) =~= p);
    } else {
        let front = events.drop_last();
        lemma_positions_prefix(front, session_id, after, through, n);
        assert(front.take(n) =~= events.take(n));
        let q = positions(front, session_id, after, through);
        assert(positions(events, session_id, after, through).take(p.len() as int) =~= q.take(
            p.len() as int,
        ));
    }
}

proof fn lemma_first_unnumbered_stays(events: Seq<EventMark>, n: int)
    requires
        0 <= n <= events.len(),
        first_unnumbered(events.take(n)) is Some,
    ensures
        first_unnumbered(events) == first_unnumbered(events.take(n)),
    decreases events.len(),
{
    if n == events.len() {
        assert(events.take(n) =~= events);
    } else {
        let front = events.drop_last();
        assert(front.take(n) =~= events.take(n));
        lemma_first_unnumbered_stays(front, n);
    }
}

/// The reading of the first `n` events.
spec fn reading_so_far(
    events: Seq<EventMark>,
    session_id: u128,
    after: int,
    r: Seq<int>,
    n: int,
) -> bool {
    &&& forall|k: int|
        0 <= k < r.len() ==> 0 <= #[trigger] r[k] < n && r[k] < events.len() && in_range(
            events[r[k]],
            session_id,
            after,
            u64::MAX as int,
        )
    &&& forall|k: int, l: int|
        0 <= k < l < r.len() ==> reads_before(events, #[trigger] r[k], #[trigger] r[l])
    &&& forall|i: int|
        0 <= i < n && i < events.len() && in_range(
            #[trigger] events[i],
            session_id,
            after,
            u64::MAX as int,
        ) ==> r.contains(i)
}

proof fn lemma_reading_grows(
    events: Seq<EventMark>,
    session_id: u128,
    after: int,
    r: Seq<int>,
    i: int,
    at: int,
)
    requires
        0 <= i < events.len(),
        0 <= at <= r.len(),
        reading_so_far(events, session_id, after, r, i),
        in_range(events[i], session_id, after, u64::MAX as int),
        forall|k: int|
            at <= k < r.len() ==> events[#[trigger] r[k]].sequence->0 > events[i].sequence->0,
        at > 0 ==> events[r[at - 1]].sequence->0 <= events[i].sequence->0,
    ensures
        reading_so_far(events, session_id, after, r.insert(at, i), i + 1),
{
    let s = r.insert(at, i);
    assert forall|k: int| 0 <= k < s.len() implies 0 <= #[trigger] s[k] < i + 1 && s[k]
        < events.len() && in_range(events[s[k]], session_id, after, u64::MAX as int) by {
        if k < at {
            assert(s[k] == r[k]);
        } else if k > at {
            assert(s[k] == r[k - 1]);
        }
    }
    assert forall|k: int, l: int| 0 <= k < l < s.len() implies reads_before(
        events,
        #[trigger] s[k],
        #[trigger] s[l],
    ) by {
        let x = if k < at {
            k
        } else {
            k - 1
        };
        let y = if l < at {
            l
        } else {
            l - 1
        };
        if k != at && l != at {
            assert(s[k] == r[x] && s[l] == r[y]);
        } else if l == at {
            assert(s[k] == r[k]);
            if k < at - 1 {
                assert(reads_before(events, r[k], r[at - 1]));
            }
        } else {
            assert(s[l] == r[l - 1]);
        }
    }
    assert forall|j: int|
        0 <= j < i + 1 && j < events.len() && in_range(
            #[trigger] events[j],
            session_id,
            after,
            u64::MAX as int,
        ) implies s.contains(j) by {
        if j < i {
            let k = choose|k: int| 0 <= k < r.len() && r[k] == j;
            let l = if k < at {
                k
            } else {
                k + 1
            };
            assert(s[l] == j);
        } else {
            assert(s[at] == i);
        }
    }
}

/// Whether the event at one position has a greater sequence than the one at
/// another.
fn after_event(events: &Vec<EventMark>, a: usize, b: usize) -> (r: bool)
    requires
        a < events@.len(),
        b < events@.len(),
        events@[a as int].sequence is Some,
        events@[b as int].sequence is Some,
    ensures
        r == (events@[a as int].sequence->0 > events@[b as int].sequence->0),
{
    match (events[a].sequence, events[b].sequence) {
        (Some(x), Some(y)) => x > y,
        _ => false,
    }
}

// --------------------------------------------------------------------- laws

/// A log with a batch added to it that was planned for a session at `head`.
pub open spec fn appended(events: Seq<EventMark>, session_id: u128, head: int, n: nat) -> Seq<
    EventMark,
> {
    events + Seq::new(
        n,
        |i: int| EventMark { session_id, sequence: Some((head + i + 1) as u64) },
    )
}

/// Whether the sequences of a session only ever go up.
pub open spec fn ascending(events: Seq<EventMark>, session_id: u128) -> bool {
    forall|i: int, j: int|
        0 <= i < j < events.len() && (#[trigger] events[i]).session_id == session_id && (
        #[trigger] events[j]).session_id == session_id && events[i].sequence is Some
            && events[j].sequence is Some ==> events[i].sequence->0 < events[j].sequence->0
}

proof fn lemma_last_sequence_bounds(events: Seq<EventMark>, session_id: u128)
    ensures
        forall|i: int|
            0 <= i < events.len() && (#[trigger] events[i]).session_id == session_id
                && events[i].sequence is Some ==> events[i].sequence->0 <= last_sequence(
                events,
                session_id,
            ),
        0 <= last_sequence(events, session_id),
    decreases events.len(),
{
    if events.len() > 0 {
        let front = events.drop_last();
        lemma_last_sequence_bounds(front, session_id);
        assert forall|i: int|
            0 <= i < events.len() && (#[trigger] events[i]).session_id == session_id
                && events[i].sequence is Some implies events[i].sequence->0 <= last_sequence(
            events,
            session_id,
        ) by {
            if i < front.len() {
                assert(front[i] == events[i]);
            }
        }
    }
}

/// Opening a log again finds every session where it was: a batch that was
/// written moves the head of its own session by as many as it holds, as the
/// open log has it, and that of no other.
pub proof fn reopening_resumes(
    events: Seq<EventMark>,
    session_id: u128,
    n: nat,
    other: u128,
)
    requires
        last_sequence(events, session_id) + n <= u64::MAX,
    ensures
        last_sequence(
            appended(events, session_id, last_sequence(events, session_id), n),
            session_id,
        ) == last_sequence(events, session_id) + n,
        other != session_id ==> last_sequence(
            appended(events, session_id, last_sequence(events, session_id), n),
            other,
        ) == last_sequence(events, other),
    decreases n,
{
    let head = last_sequence(events, session_id);
    lemma_last_sequence_bounds(events, session_id);
    let all = appended(events, session_id, head, n);
    if n == 0 {
        assert(all =~= events);
    } else {
        reopening_resumes(events, session_id, (n - 1) as nat, other);
        assert(all.drop_last() =~= appended(events, session_id, head, (n - 1) as nat));
    }
}

/// Writing to a session keeps the sequences going up, of that session and of
/// any other.
pub proof fn appending_keeps_order(
    events: Seq<EventMark>,
    session_id: u128,
    n: nat,
    other: u128,
)
    requires
        ascending(events, other),
        last_sequence(events, session_id) + n <= u64::MAX,
    ensures
        ascending(appended(events, session_id, last_sequence(events, session_id), n), other),
{
    let head = last_sequence(events, session_id);
    lemma_last_sequence_bounds(events, session_id);
    let all = appended(events, session_id, head, n);
    assert forall|i: int, j: int|
        0 <= i < j < all.len() && (#[trigger] all[i]).session_id == other && (
        #[trigger] all[j]).session_id == other && all[i].sequence is Some && all[j].sequence
            is Some implies all[i].sequence->0 < all[j].sequence->0 by {
        if j < events.len() {
            assert(all[i] == events[i] && all[j] == events[j]);
        } else if i < events.len() {
            assert(all[i] == events[i]);
        }
    }
}

proof fn lemma_enumeration(r: Seq<int>, low: int, high: int, k: int)
    requires
        low <= high,
        forall|i: int| 0 <= i < r.len() ==> low <= #[trigger] r[i] < high,
        forall|i: int, j: int| 0 <= i < j < r.len() ==> #[trigger] r[i] < #[trigger] r[j],
        forall|x: int| low <= x < high ==> #[trigger] r.contains(x),
        0 <= k <= r.len(),
    ensures
        forall|i: int| 0 <= i < k ==> #[trigger] r[i] == low + i,
    decreases k,
{
    if k > 0 {
        lemma_enumeration(r, low, high, k - 1);
        let last = k - 1;
        assert(r[last] >= low + last) by {
            if last > 0 {
                assert(r[last - 1] == low + last - 1);
                assert(r[last - 1] < r[last]);
            }
        }
        assert(r.contains(low + last));
        let j = choose|j: int| 0 <= j < r.len() && r[j] == low + last;
        if j > last {
            assert(r[last] < r[j]);
        } else if j < last {
            assert(r[j] == low + j);
        }
    }
}

/// What was written is what is read: reading a session after the head that a
/// batch was planned for gives the events of that batch, all of them, in
/// order, and nothing else.
pub proof fn reads_what_was_written(
    events: Seq<EventMark>,
    session_id: u128,
    n: nat,
    r: Seq<int>,
)
    requires
        last_sequence(events, session_id) + n <= u64::MAX,
        is_reading(
            appended(events, session_id, last_sequence(events, session_id), n),
            session_id,
            last_sequence(events, session_id),
            r,
        ),
    ensures
        r == Seq::new(n, |i: int| events.len() + i),
{
    let head = last_sequence(events, session_id);
    let all = appended(events, session_id, head, n);
    let low = events.len() as int;
    let high = low + n;
    lemma_last_sequence_bounds(events, session_id);
    assert forall|k: int| 0 <= k < r.len() implies low <= #[trigger] r[k] < high by {
        if r[k] < low {
            assert(all[r[k]] == events[r[k]]);
        }
    }
    assert forall|k: int, l: int| 0 <= k < l < r.len() implies #[trigger] r[k] < #[trigger] r[l] by {
        assert(reads_before(all, r[k], r[l]));
    }
    assert forall|x: int| low <= x < high implies #[trigger] r.contains(x) by {
        assert(in_range(all[x], session_id, head, u64::MAX as int));
    }
    lemma_enumeration(r, low, high, r.len() as int);
    if n > 0 {
        assert(r.contains(high - 1));
        let j = choose|j: int| 0 <= j < r.len() && r[j] == high - 1;
        assert(r[j] == low + j);
        assert(r[r.len() - 1] == low + r.len() - 1);
    } else if r.len() > 0 {
        assert(low <= r[0] < high);
    }
    assert(r =~= Seq::new(n, |i: int| events.len() + i));
}

proof fn lemma_positions_ascend(events: Seq<EventMark>, session_id: u128, after: int, through: int)
    ensures
        forall|k: int, l: int|
            0 <= k < l < positions(events, session_id, after, through).len()
                ==> #[trigger] positions(events, session_id, after, through)[k]
                < #[trigger] positions(events, session_id, after, through)[l],
    decreases events.len(),
{
    if events.len() > 0 {
        let front = events.drop_last();
        lemma_positions_ascend(front, session_id, after, through);
        lemma_positions(front, session_id, after, through);
        let p = positions(front, session_id, after, through);
        let q = positions(events, session_id, after, through);
        assert forall|k: int, l: int| 0 <= k < l < q.len() implies #[trigger] q[k]
            < #[trigger] q[l] by {
            assert(q[k] == p[k]);
            if l < p.len() {
                assert(q[l] == p[l]);
            }
        }
    }
}

proof fn lemma_rest(
    events: Seq<EventMark>,
    session_id: u128,
    after: int,
    through: int,
    cut: int,
    n: int,
)
    requires
        ascending(events, session_id),
        0 <= cut < events.len(),
        in_range(events[cut], session_id, after, through),
        0 <= n <= events.len(),
    ensures
        positions(events.take(n), session_id, events[cut].sequence->0 as int, through)
            == if n <= cut + 1 {
            Seq::empty()
        } else {
            positions(events.take(n), session_id, after, through).skip(
                positions(events.take(cut + 1), session_id, after, through).len() as int,
            )
        },
    decreases n,
{
    let next = events[cut].sequence->0 as int;
    let shown = positions(events.take(cut + 1), session_id, after, through);
    if n == 0 {
        assert(positions(events.take(n), session_id, next, through) =~= Seq::empty());
    } else {
        lemma_rest(events, session_id, after, through, cut, n - 1);
        assert(events.take(n).drop_last() =~= events.take(n - 1));
        let event = events[n - 1];
        let before = positions(events.take(n - 1), session_id, after, through);
        if n - 1 > cut {
            assert(in_range(event, session_id, next, through) == in_range(
                event,
                session_id,
                after,
                through,
            ));
            lemma_positions_prefix(events.take(n - 1), session_id, after, through, cut + 1);
            assert(events.take(n - 1).take(cut + 1) =~= events.take(cut + 1));
            assert(shown.len() <= before.len());
            let all = positions(events.take(n), session_id, after, through);
            if in_range(event, session_id, after, through) {
                assert(before.push(n - 1).skip(shown.len() as int) =~= before.skip(
                    shown.len() as int,
                ).push(n - 1));
            }
            if n - 1 == cut + 1 {
                assert(before.skip(shown.len() as int) =~= Seq::empty());
            }
        } else {
            if n - 1 < cut {
                assert(!in_range(event, session_id, next, through));
            }
        }
    }
}

/// Pages go on where the last one ended: the events after the sequence that a
/// full page names are the ones that the page left out, so that none is lost
/// or shown twice.
pub proof fn pages_continue(
    events: Seq<EventMark>,
    session_id: u128,
    after: int,
    through: int,
    limit: int,
)
    requires
        ascending(events, session_id),
        0 < limit < positions(events, session_id, after, through).len(),
    ensures
        ({
            let all = positions(events, session_id, after, through);
            positions(
                events,
                session_id,
                events[all[limit - 1]].sequence->0 as int,
                through,
            ) == all.skip(limit)
        }),
{
    let all = positions(events, session_id, after, through);
    lemma_positions(events, session_id, after, through);
    lemma_positions_ascend(events, session_id, after, through);
    let cut = all[limit - 1];
    let shown = positions(events.take(cut + 1), session_id, after, through);
    lemma_positions_prefix(events, session_id, after, through, cut + 1);
    assert(events.take(cut + 1).drop_last() =~= events.take(cut));
    assert(events.take(cut + 1).last() == events[cut]);
    assert(shown.last() == cut);
    assert(all[shown.len() - 1] == all.take(shown.len() as int)[shown.len() - 1]);
    assert(all[shown.len() - 1] == cut);
    assert(shown.len() == limit);
    lemma_rest(events, session_id, after, through, cut, events.len() as int);
    assert(events.take(events.len() as int) =~= events);
    if events.len() == cut + 1 {
        assert(events.take(cut + 1) =~= events);
    }
}

/// The last sequence of a session is the greatest that any of its events has,
/// and zero only where none has a greater one.
pub proof fn the_last_sequence_is_the_greatest(events: Seq<EventMark>, session_id: u128)
    ensures
        forall|i: int|
            0 <= i < events.len() && (#[trigger] events[i]).session_id == session_id
                ==> match events[i].sequence {
                Some(s) => s <= last_sequence(events, session_id),
                None => true,
            },
        last_sequence(events, session_id) == 0 || exists|i: int|
            0 <= i < events.len() && (#[trigger] events[i]).session_id == session_id
                && events[i].sequence is Some && events[i].sequence->0 == last_sequence(
                events,
                session_id,
            ),
    decreases events.len(),
{
    lemma_last_sequence_bounds(events, session_id);
    if events.len() > 0 {
        let front = events.drop_last();
        the_last_sequence_is_the_greatest(front, session_id);
        let last = last_sequence(events, session_id);
        if last != 0 {
            if last == last_sequence(front, session_id) {
                let i = choose|i: int|
                    0 <= i < front.len() && (#[trigger] front[i]).session_id == session_id
                        && front[i].sequence is Some && front[i].sequence->0 == last;
                assert(events[i].sequence->0 == last);
            } else {
                assert(events[events.len() - 1].sequence->0 == last);
            }
        }
    }
}

/// The event that a log is refused for has no sequence, and every one before
/// it has; a log is not refused only where every event has one.
pub proof fn the_first_gap_is_found(events: Seq<EventMark>)
    ensures
        match first_unnumbered(events) {
            Some(i) => 0 <= i < events.len() && events[i].sequence is None && forall|j: int|
                0 <= j < i ==> (#[trigger] events[j]).sequence is Some,
            None => forall|j: int|
                0 <= j < events.len() ==> (#[trigger] events[j]).sequence is Some,
        },
    decreases events.len(),
{
    if events.len() > 0 {
        let front = events.drop_last();
        the_first_gap_is_found(front);
        assert forall|j: int|
            0 <= j < front.len() && front[j].sequence is Some implies (
            #[trigger] events[j]).sequence is Some by {
            assert(front[j] == events[j]);
        }
    }
}

/// A batch is taken if and only if it was written for the version that the
/// session has, or for any, and every event in it belongs to the session. A
/// conflict names both versions, and comes first.
pub proof fn a_batch_is_taken_where_it_belongs(
    actual: int,
    session_id: u128,
    expected: ExpectedVersion,
    requests: Seq<u128>,
)
    ensures
        refusal(actual, session_id, expected, requests) is None <==> {
            &&& expected is Any || expected->0 == actual
            &&& forall|i: int| 0 <= i < requests.len() ==> #[trigger] requests[i] == session_id
        },
        expected matches ExpectedVersion::Exact(version) ==> version != actual ==> refusal(
            actual,
            session_id,
            expected,
            requests,
        ) == Some(Refusal::Conflict { expected: version, actual }),
        expected is Any || expected->0 == actual ==> !(refusal(
            actual,
            session_id,
            expected,
            requests,
        ) matches Some(Refusal::Conflict { .. })),
{
}

/// A range is about the events of its session behind the one that it starts
/// after, up to the one that it goes through, all of them, in the order of the
/// log.
pub proof fn a_range_holds_every_event_of_its_window(events: Seq<EventMark>, range: EventRange)
    ensures
        ({
            let all = wanted(events, range);
            &&& forall|k: int, l: int|
                0 <= k < l < all.len() ==> #[trigger] all[k] < #[trigger] all[l]
            &&& forall|i: int|
                all.contains(i) <==> 0 <= i < events.len() && (
                #[trigger] events[i]).session_id == range.session_id && match events[i].sequence {
                    Some(s) => {
                        &&& range.after is Some ==> s > range.after->0
                        &&& range.after is None ==> s > 0
                        &&& range.through is Some ==> s <= range.through->0
                    },
                    None => false,
                }
        }),
{
    let all = wanted(events, range);
    let after = match range.after {
        Some(s) => s as int,
        None => 0,
    };
    let through = match range.through {
        Some(s) => s as int,
        None => u64::MAX as int,
    };
    lemma_positions(events, range.session_id, after, through);
    lemma_positions_ascend(events, range.session_id, after, through);
    assert(all == positions(events, range.session_id, after, through));
    assert forall|i: int|
        all.contains(i) <==> 0 <= i < events.len() && (#[trigger] events[i]).session_id
            == range.session_id && match events[i].sequence {
            Some(s) => {
                &&& range.after is Some ==> s > range.after->0
                &&& range.after is None ==> s > 0
                &&& range.through is Some ==> s <= range.through->0
            },
            None => false,
        } by {
        if all.contains(i) {
            let k = choose|k: int| 0 <= k < all.len() && all[k] == i;
            assert(in_range(events[all[k]], range.session_id, after, through));
        }
        if 0 <= i < events.len() && in_range(events[i], range.session_id, after, through) {
            assert(all.contains(i));
        }
    }
}

/// A page begins with the first event of its range and leaves none out before
/// its last; it says where to go on if and only if it is full and left events
/// out, which is behind the last that it shows.
pub proof fn a_page_is_the_beginning_of_its_range(
    page: EventPage,
    events: Seq<EventMark>,
    range: EventRange,
    head: int,
)
    requires
        is_page(page, events, range, head),
    ensures
        ({
            let all = wanted(events, range);
            &&& page.head == head
            &&& page.events@.len() <= range.limit
            &&& page.events@.len() <= all.len()
            &&& page.events@.len() == range.limit || page.events@.len() == all.len()
            &&& forall|k: int|
                0 <= k < page.events@.len() ==> (#[trigger] page.events@[k]) as int == all[k]
            &&& page.next is Some ==> page.events@.len() > 0 && page.next
                == events[page.events@.last() as int].sequence
            &&& all.len() <= range.limit ==> page.next is None
            &&& all.len() > range.limit && range.limit > 0 ==> page.next is Some
        }),
{
    let all = wanted(events, range);
    let shown = if all.len() > range.limit {
        all.take(range.limit as int)
    } else {
        all
    };
    let seen = ints(page.events@);
    assert(seen.len() == page.events@.len());
    assert forall|k: int| 0 <= k < page.events@.len() implies (#[trigger] page.events@[k]) as int
        == all[k] by {
        assert(seen[k] == page.events@[k] as int);
        assert(shown[k] == all[k]);
    }
    if all.len() > range.limit && range.limit > 0 {
        let last = page.events@.len() - 1;
        assert(shown.last() == seen[last]);
        assert(seen[last] == page.events@[last] as int);
        a_range_holds_every_event_of_its_window(events, range);
        assert(all.contains(all[last]));
        assert(events[all[last]].sequence is Some);
    }
}

/// A refusal is told as what it is: a conflict with the version that was
/// expected and the one that the session has, and a stray event in its own
/// words.
pub proof fn a_refusal_is_told_as_it_is(e: Error, expected: u64, actual: int)
    ensures
        e matches Error::EventConflict { expected: x, actual: y } ==> (is_refusal(
            e,
            Refusal::Conflict { expected, actual },
        ) <==> x == expected && y == actual),
        !(e is EventConflict) ==> !is_refusal(e, Refusal::Conflict { expected, actual }),
        is_refusal(e, Refusal::OtherSession) <==> (e matches Error::EventLog(text) && text@
            == "event batch contains a different session"@),
{
}

/// A session is read by sequence, and events that share one in the order of
/// the log; every event behind the given one is read, once.
pub proof fn a_reading_is_in_order(
    events: Seq<EventMark>,
    session_id: u128,
    after: int,
    r: Seq<int>,
)
    requires
        is_reading(events, session_id, after, r),
    ensures
        r.no_duplicates(),
        forall|k: int, l: int|
            0 <= k < l < r.len() ==> events[#[trigger] r[k]].sequence->0 <= events[#[trigger] r[
            l]].sequence->0,
        forall|i: int|
            r.contains(i) <==> 0 <= i < events.len() && (#[trigger] events[i]).session_id
                == session_id && (events[i].sequence matches Some(s) && s > after),
{
    assert forall|k: int, l: int| 0 <= k < r.len() && 0 <= l < r.len() && k != l implies r[k]
        != r[l] by {
        if k < l {
            assert(reads_before(events, r[k], r[l]));
        } else {
            assert(reads_before(events, r[l], r[k]));
        }
    }
    assert forall|k: int, l: int|
        0 <= k < l < r.len() implies events[#[trigger] r[k]].sequence->0 <= events[#[trigger] r[
        l]].sequence->0 by {
        assert(reads_before(events, r[k], r[l]));
    }
    assert forall|i: int|
        r.contains(i) <==> 0 <= i < events.len() && (#[trigger] events[i]).session_id == session_id
            && (events[i].sequence matches Some(s) && s > after) by {
        if r.contains(i) {
            let k = choose|k: int| 0 <= k < r.len() && r[k] == i;
            assert(in_range(events[r[k]], session_id, after, u64::MAX as int));
        }
        if 0 <= i < events.len() && in_range(events[i], session_id, after, u64::MAX as int) {
            assert(r.contains(i));
        }
    }
}

} // verus!
