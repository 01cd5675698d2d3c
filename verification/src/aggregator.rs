//! The live epoch: per-member scores that grow with every recorded contribution
//! and are handed over whole when the epoch is drained.

use vstd::prelude::*;
use vstd::bytes::{spec_u64_from_le_bytes, spec_u64_to_le_bytes, lemma_auto_spec_u64_to_from_le_bytes};
use crate::address::{lemma_address_ext, Address};
use crate::state::{read_address, read_u64, write_address, write_u64};

verus! {

/// One validated unit of work.
#[derive(Clone, Copy, Debug, PartialEq, Eq)]
pub struct Contribution {
    pub member: Address,
    pub score: u64,
    pub timestamp: u64,
}

/// Length of a contribution on the wire: member, score, timestamp.
pub const CONTRIBUTION_LEN: usize = 48;

/// The bytes that carry a contribution.
pub open spec fn contribution_bytes(c: Contribution) -> Seq<u8> {
    c.member@ + spec_u64_to_le_bytes(c.score) + spec_u64_to_le_bytes(c.timestamp)
}

/// `c` is the contribution that `data` carries.
pub open spec fn is_contribution(data: Seq<u8>, c: Contribution) -> bool {
    &&& c.member@ == data.subrange(0, 32)
    &&& c.score == spec_u64_from_le_bytes(data.subrange(32, 40))
    &&& c.timestamp == spec_u64_from_le_bytes(data.subrange(40, 48))
}

/// A contribution that has been written is read back as it was.
pub proof fn lemma_contribution_round_trip(c: Contribution, d: Contribution)
    requires
        is_contribution(contribution_bytes(c), d),
    ensures
        contribution_bytes(c).len() == CONTRIBUTION_LEN,
        d == c,
{
    lemma_auto_spec_u64_to_from_le_bytes();
    let data = contribution_bytes(c);
    assert(spec_u64_to_le_bytes(c.score).len() == 8);
    assert(spec_u64_to_le_bytes(c.timestamp).len() == 8);
    assert(data.subrange(0, 32) =~= c.member@);
    assert(data.subrange(32, 40) =~= spec_u64_to_le_bytes(c.score));
    assert(data.subrange(40, 48) =~= spec_u64_to_le_bytes(c.timestamp));
    lemma_address_ext(c.member, d.member);
}

impl Contribution {
    /// Reads a contribution off the wire. Data of another length is refused.
    pub fn try_from_bytes(data: &[u8]) -> (r: Option<Contribution>)
        ensures
            r is Some <==> data@.len() == CONTRIBUTION_LEN,
            r matches Some(c) ==> is_contribution(data@, c),
    {
        if data.len() != CONTRIBUTION_LEN {
            return None;
        }
        Some(
            Contribution {
                member: read_address(data, 0),
                score: read_u64(data, 32),
                timestamp: read_u64(data, 40),
            },
        )
    }

    /// Writes the contribution for the wire.
    pub fn to_bytes(&self) -> (out: Vec<u8>)
        ensures
            out@ == contribution_bytes(*self),
    {
        let mut out: Vec<u8> = Vec::new();
        write_address(&mut out, &self.member);
        write_u64(&mut out, self.score);
        write_u64(&mut out, self.timestamp);
        assert(out@ =~= contribution_bytes(*self));
        out
    }
}

/// A member's accumulated score within one epoch.
#[derive(Clone, Copy, Debug, PartialEq, Eq)]
pub struct Entry {
    pub member: Address,
    pub score: u64,
}

/// The scores of one finished epoch together with the reward budget that was
/// available when it was drained.
#[derive(Debug)]
pub struct EpochSnapshot {
    pub epoch: u64,
    pub entries: Vec<Entry>,
    pub total_score: u64,
    pub reservoir: u64,
}

/// Sum of all scores.
pub open spec fn total_score(s: Seq<Entry>) -> nat
    decreases s.len(),
{
    if s.len() == 0 {
        0
    } else {
        total_score(s.drop_last()) + s.last().score as nat
    }
}

/// Score held for `member`; zero where the member has no entry.
pub open spec fn score_of(s: Seq<Entry>, member: Seq<u8>) -> nat
    decreases s.len(),
{
    if s.len() == 0 {
        0
    } else {
        score_of(s.drop_last(), member) + if s.last().member@ == member {
            s.last().score as nat
        } else {
            0
        }
    }
}

/// No member has two entries.
pub open spec fn distinct_members(s: Seq<Entry>) -> bool {
    forall|i: int, j: int|
        0 <= i < s.len() && 0 <= j < s.len() && i != j ==> #[trigger] s[i].member@
            != #[trigger] s[j].member@
}

/// `member` has an entry.
pub open spec fn holds_member(s: Seq<Entry>, member: Seq<u8>) -> bool {
    exists|i: int| 0 <= i < s.len() && #[trigger] s[i].member@ == member
}

/// The scores after one more contribution: the member's entry grows in place,
/// or a new entry is appended behind the others.
pub open spec fn recorded(s: Seq<Entry>, c: Contribution) -> Seq<Entry> {
    if holds_member(s, c.member@) {
        let i = choose|i: int| 0 <= i < s.len() && #[trigger] s[i].member@ == c.member@;
        s.update(i, Entry { member: s[i].member, score: (s[i].score + c.score) as u64 })
    } else {
        s.push(Entry { member: c.member, score: c.score })
    }
}

/// The scores that a sequence of contributions builds up from nothing.
pub open spec fn replay(log: Seq<Contribution>) -> Seq<Entry>
    decreases log.len(),
{
    if log.len() == 0 {
        Seq::empty()
    } else {
        recorded(replay(log.drop_last()), log.last())
    }
}

/// Sum of the weights of all contributions in `log`.
pub open spec fn weight_sum(log: Seq<Contribution>) -> nat
    decreases log.len(),
{
    if log.len() == 0 {
        0
    } else {
        weight_sum(log.drop_last()) + log.last().score as nat
    }
}

/// Sum of the weights that `member` contributed in `log`.
pub open spec fn weight_of(log: Seq<Contribution>, member: Seq<u8>) -> nat
    decreases log.len(),
{
    if log.len() == 0 {
        0
    } else {
        weight_of(log.drop_last(), member) + if log.last().member@ == member {
            log.last().score as nat
        } else {
            0
        }
    }
}

/// Replacing an entry changes the total by the difference of the two scores.
pub proof fn lemma_total_score_update(s: Seq<Entry>, i: int, e: Entry)
    requires
        0 <= i < s.len(),
    ensures
        total_score(s.update(i, e)) + s[i].score == total_score(s) + e.score,
    decreases s.len(),
{
    let u = s.update(i, e);
    if i == s.len() - 1 {
        assert(u.drop_last() =~= s.drop_last());
    } else {
        lemma_total_score_update(s.drop_last(), i, e);
        assert(u.drop_last() =~= s.drop_last().update(i, e));
    }
}

/// Replacing an entry by one of the same member changes that member's score by the
/// difference of the two scores, and no other member's.
pub proof fn lemma_score_of_update(s: Seq<Entry>, i: int, e: Entry, member: Seq<u8>)
    requires
        0 <= i < s.len(),
        e.member@ == s[i].member@,
    ensures
        score_of(s.update(i, e), member) + (if s[i].member@ == member {
            s[i].score as nat
        } else {
            0
        }) == score_of(s, member) + (if s[i].member@ == member {
            e.score as nat
        } else {
            0
        }),
    decreases s.len(),
{
    let u = s.update(i, e);
    if i == s.len() - 1 {
        assert(u.drop_last() =~= s.drop_last());
    } else {
        lemma_score_of_update(s.drop_last(), i, e, member);
        assert(u.drop_last() =~= s.drop_last().update(i, e));
    }
}

/// A member without an entry has score zero.
pub proof fn lemma_score_of_absent(s: Seq<Entry>, member: Seq<u8>)
    requires
        !holds_member(s, member),
    ensures
        score_of(s, member) == 0,
    decreases s.len(),
{
    if s.len() > 0 {
        assert(s[s.len() - 1].member@ != member);
        assert forall|i: int| 0 <= i < s.drop_last().len() implies #[trigger] s.drop_last()[i].member@
            != member by {
            assert(s[i].member@ != member);
        }
        lemma_score_of_absent(s.drop_last(), member);
    }
}

/// Where members are distinct, a member's score is the score of its one entry.
pub proof fn lemma_score_of_entry(s: Seq<Entry>, i: int)
    requires
        distinct_members(s),
        0 <= i < s.len(),
    ensures
        score_of(s, s[i].member@) == s[i].score,
    decreases s.len(),
{
    let m = s[i].member@;
    let front = s.drop_last();
    if i == s.len() - 1 {
        assert forall|j: int| 0 <= j < front.len() implies #[trigger] front[j].member@ != m by {
            assert(s[j].member@ != s[i].member@);
        }
        assert(!holds_member(front, m));
        lemma_score_of_absent(front, m);
    } else {
        assert(s[s.len() - 1].member@ != s[i].member@);
        assert(distinct_members(front)) by {
            assert forall|a: int, b: int|
                0 <= a < front.len() && 0 <= b < front.len() && a != b implies #[trigger] front[a].member@
                != #[trigger] front[b].member@ by {
                assert(s[a].member@ != s[b].member@);
            }
        }
        lemma_score_of_entry(front, i);
    }
}

/// What one contribution does to the scores: the total grows by its weight, the
/// contributor's score grows by its weight, every other score stays, and members
/// stay distinct.
pub proof fn lemma_recorded(s: Seq<Entry>, c: Contribution)
    requires
        distinct_members(s),
        total_score(s) + c.score <= u64::MAX,
    ensures
        distinct_members(recorded(s, c)),
        total_score(recorded(s, c)) == total_score(s) + c.score,
        forall|m: Seq<u8>|
            #[trigger] score_of(recorded(s, c), m) == score_of(s, m) + (if m == c.member@ {
                c.score as nat
            } else {
                0
            }),
{
    let r = recorded(s, c);
    if holds_member(s, c.member@) {
        let i = choose|i: int| 0 <= i < s.len() && #[trigger] s[i].member@ == c.member@;
        lemma_score_bounded(s, i);
        let e = Entry { member: s[i].member, score: (s[i].score + c.score) as u64 };
        assert(e.score == s[i].score + c.score);
        lemma_total_score_update(s, i, e);
        assert forall|m: Seq<u8>|
            #[trigger] score_of(r, m) == score_of(s, m) + (if m == c.member@ {
                c.score as nat
            } else {
                0
            }) by {
            lemma_score_of_update(s, i, e, m);
        }
        assert forall|a: int, b: int|
            0 <= a < r.len() && 0 <= b < r.len() && a != b implies #[trigger] r[a].member@
            != #[trigger] r[b].member@ by {
            assert(r[a].member@ == s[a].member@);
            assert(r[b].member@ == s[b].member@);
        }
    } else {
        let e = Entry { member: c.member, score: c.score };
        assert(r.drop_last() =~= s);
        assert forall|m: Seq<u8>|
            #[trigger] score_of(r, m) == score_of(s, m) + (if m == c.member@ {
                c.score as nat
            } else {
                0
            }) by {
            assert(r.last() == e);
        }
        assert forall|a: int, b: int|
            0 <= a < r.len() && 0 <= b < r.len() && a != b implies #[trigger] r[a].member@
            != #[trigger] r[b].member@ by {
            if a < s.len() {
                assert(r[a].member@ == s[a].member@);
            }
            if b < s.len() {
                assert(r[b].member@ == s[b].member@);
            }
        }
    }
}

/// No single score exceeds the total.
pub proof fn lemma_score_bounded(s: Seq<Entry>, i: int)
    requires
        0 <= i < s.len(),
    ensures
        s[i].score <= total_score(s),
    decreases s.len(),
{
    if i < s.len() - 1 {
        lemma_score_bounded(s.drop_last(), i);
    }
}

/// Conservation within an epoch: as long as the recorded weights fit 64
/// bits together, the scores built from a sequence of contributions add up to
/// exactly the sum of the recorded weights, and each member holds exactly
/// what that member contributed.
pub proof fn lemma_conservation(log: Seq<Contribution>)
    requires
        weight_sum(log) <= u64::MAX,
    ensures
        distinct_members(replay(log)),
        total_score(replay(log)) == weight_sum(log),
        forall|m: Seq<u8>| #[trigger] score_of(replay(log), m) == weight_of(log, m),
    decreases log.len(),
{
    if log.len() > 0 {
        let front = log.drop_last();
        lemma_conservation(front);
        lemma_recorded(replay(front), log.last());
        assert forall|m: Seq<u8>| #[trigger] score_of(replay(log), m) == weight_of(log, m) by {
            assert(score_of(replay(front), m) == weight_of(front, m));
        }
    }
}

/// Weights add up across a split of the log.
pub proof fn lemma_weight_sum_concat(a: Seq<Contribution>, b: Seq<Contribution>)
    ensures
        weight_sum(a + b) == weight_sum(a) + weight_sum(b),
    decreases b.len(),
{
    if b.len() == 0 {
        assert(a + b =~= a);
    } else {
        lemma_weight_sum_concat(a, b.drop_last());
        assert((a + b).drop_last() =~= a + b.drop_last());
        assert((a + b).last() == b.last());
    }
}

/// Every contribution lands in exactly one epoch: when a drain falls between
/// the contributions `before` and `after`, the drained snapshot holds exactly
/// the weights of `before`, the new live epoch exactly those of `after`, and
/// together they account for all recorded weight, none of it twice.
pub proof fn lemma_drain_partitions(before: Seq<Contribution>, after: Seq<Contribution>)
    requires
        weight_sum(before + after) <= u64::MAX,
    ensures
        total_score(replay(before)) == weight_sum(before),
        total_score(replay(after)) == weight_sum(after),
        total_score(replay(before)) + total_score(replay(after)) == weight_sum(before + after),
        forall|m: Seq<u8>|
            #[trigger] score_of(replay(before), m) + score_of(replay(after), m) == weight_of(
                before + after,
                m,
            ),
{
    lemma_weight_sum_concat(before, after);
    lemma_conservation(before);
    lemma_conservation(after);
    assert forall|m: Seq<u8>|
        #[trigger] score_of(replay(before), m) + score_of(replay(after), m) == weight_of(
            before + after,
            m,
        ) by {
        lemma_weight_of_concat(before, after, m);
        assert(score_of(replay(before), m) == weight_of(before, m));
        assert(score_of(replay(after), m) == weight_of(after, m));
    }
}

/// A member's weights add up across a split of the log.
pub proof fn lemma_weight_of_concat(a: Seq<Contribution>, b: Seq<Contribution>, m: Seq<u8>)
    ensures
        weight_of(a + b, m) == weight_of(a, m) + weight_of(b, m),
    decreases b.len(),
{
    if b.len() == 0 {
        assert(a + b =~= a);
    } else {
        lemma_weight_of_concat(a, b.drop_last(), m);
        assert((a + b).drop_last() =~= a + b.drop_last());
        assert((a + b).last() == b.last());
    }
}

/// What happened to an aggregator, one step at a time.
pub enum Event {
    /// A contribution was recorded.
    Recorded(Contribution),
    /// The live epoch was drained.
    Drained,
}

/// The contributions of the live epoch: those recorded since the last drain.
pub open spec fn live_log(history: Seq<Event>) -> Seq<Contribution>
    decreases history.len(),
{
    if history.len() == 0 {
        Seq::empty()
    } else {
        match history.last() {
            Event::Recorded(c) => live_log(history.drop_last()).push(c),
            Event::Drained => Seq::empty(),
        }
    }
}

/// The contributions of every drained epoch, one log for each drain, in order.
pub open spec fn drained_logs(history: Seq<Event>) -> Seq<Seq<Contribution>>
    decreases history.len(),
{
    if history.len() == 0 {
        Seq::empty()
    } else {
        match history.last() {
            Event::Recorded(_) => drained_logs(history.drop_last()),
            Event::Drained => drained_logs(history.drop_last()).push(
                live_log(history.drop_last()),
            ),
        }
    }
}

/// All contributions that were ever recorded, in order.
pub open spec fn contributions(history: Seq<Event>) -> Seq<Contribution>
    decreases history.len(),
{
    if history.len() == 0 {
        Seq::empty()
    } else {
        match history.last() {
            Event::Recorded(c) => contributions(history.drop_last()).push(c),
            Event::Drained => contributions(history.drop_last()),
        }
    }
}

/// The logs laid end to end.
pub open spec fn joined(logs: Seq<Seq<Contribution>>) -> Seq<Contribution>
    decreases logs.len(),
{
    if logs.len() == 0 {
        Seq::empty()
    } else {
        joined(logs.drop_last()) + logs.last()
    }
}

/// Sum of the weights of all logs.
pub open spec fn joined_weight(logs: Seq<Seq<Contribution>>) -> nat
    decreases logs.len(),
{
    if logs.len() == 0 {
        0
    } else {
        joined_weight(logs.drop_last()) + weight_sum(logs.last())
    }
}

/// Every contribution belongs to exactly one epoch: the logs of the drained
/// epochs and the log of the live epoch, laid end to end, are the recorded
/// contributions, each once and in the order of recording, wherever the drains
/// fell between them. So the weights of all snapshots and of the live epoch add
/// up to the weight of all that was recorded.
pub proof fn lemma_history_partition(history: Seq<Event>)
    ensures
        joined(drained_logs(history)) + live_log(history) == contributions(history),
        joined_weight(drained_logs(history)) + weight_sum(live_log(history)) == weight_sum(
            contributions(history),
        ),
    decreases history.len(),
{
    if history.len() == 0 {
        assert(joined(drained_logs(history)) + live_log(history) =~= contributions(history));
    } else {
        let front = history.drop_last();
        lemma_history_partition(front);
        match history.last() {
            Event::Recorded(c) => {
                assert(joined(drained_logs(front)) + live_log(front).push(c) =~= (joined(
                    drained_logs(front),
                ) + live_log(front)).push(c));
                assert(live_log(front).push(c).drop_last() =~= live_log(front));
                assert(contributions(front).push(c).drop_last() =~= contributions(front));
            },
            Event::Drained => {
                let logs = drained_logs(front).push(live_log(front));
                assert(logs.drop_last() =~= drained_logs(front));
                assert(joined(logs) + Seq::<Contribution>::empty() =~= joined(logs));
            },
        }
    }
}

/// A contribution that meets a drain lands on exactly one side of it.
/// Recorded before the drain, it closes the drained epoch and the live epoch
/// is empty: its member's score is in the snapshot, raised by the weight, and
/// nowhere else. Recorded after the drain, it is all that the live epoch
/// holds and the drained epoch is as it was without it. In both orders it is
/// among the recorded contributions once.
pub proof fn lemma_drain_linearization(history: Seq<Event>, c: Contribution)
    ensures
        drained_logs(history.push(Event::Recorded(c)).push(Event::Drained)).last() == live_log(
            history,
        ).push(c),
        live_log(history.push(Event::Recorded(c)).push(Event::Drained)) == Seq::<
            Contribution,
        >::empty(),
        drained_logs(history.push(Event::Drained).push(Event::Recorded(c))).last() == live_log(
            history,
        ),
        live_log(history.push(Event::Drained).push(Event::Recorded(c))) == seq![c],
        contributions(history.push(Event::Recorded(c)).push(Event::Drained)) == contributions(
            history,
        ).push(c),
        contributions(history.push(Event::Drained).push(Event::Recorded(c))) == contributions(
            history,
        ).push(c),
        forall|m: Seq<u8>| #[trigger]
            weight_of(live_log(history).push(c), m) == weight_of(live_log(history), m) + (if m
                == c.member@ {
                c.score as nat
            } else {
                0
            }),
        forall|m: Seq<u8>| #[trigger]
            weight_of(seq![c], m) == (if m == c.member@ {
                c.score as nat
            } else {
                0
            }),
        forall|m: Seq<u8>| #[trigger] weight_of(Seq::<Contribution>::empty(), m) == 0,
{
    let recorded_first = history.push(Event::Recorded(c));
    let before = recorded_first.push(Event::Drained);
    let drained_first = history.push(Event::Drained);
    let after = drained_first.push(Event::Recorded(c));
    assert(recorded_first.drop_last() =~= history);
    assert(before.drop_last() =~= recorded_first);
    assert(drained_first.drop_last() =~= history);
    assert(after.drop_last() =~= drained_first);
    assert(recorded_first.last() == Event::Recorded(c));
    assert(before.last() == Event::Drained);
    assert(drained_first.last() == Event::Drained);
    assert(after.last() == Event::Recorded(c));
    assert(live_log(recorded_first) == live_log(history).push(c));
    assert(drained_logs(before) == drained_logs(recorded_first).push(live_log(recorded_first)));
    assert(live_log(drained_first) == Seq::<Contribution>::empty());
    assert(drained_logs(drained_first) == drained_logs(history).push(live_log(history)));
    assert(drained_logs(after) == drained_logs(drained_first));
    assert(live_log(after) == live_log(drained_first).push(c));
    assert(live_log(after) =~= seq![c]);
    assert(contributions(recorded_first) == contributions(history).push(c));
    assert(contributions(before) == contributions(recorded_first));
    assert(contributions(drained_first) == contributions(history));
    assert(contributions(after) == contributions(drained_first).push(c));
    assert forall|m: Seq<u8>| #[trigger]
        weight_of(live_log(history).push(c), m) == weight_of(live_log(history), m) + (if m
            == c.member@ {
            c.score as nat
        } else {
            0
        }) by {
        assert(live_log(history).push(c).drop_last() =~= live_log(history));
    }
    assert forall|m: Seq<u8>| #[trigger]
        weight_of(seq![c], m) == (if m == c.member@ {
            c.score as nat
        } else {
            0
        }) by {
        let one = seq![c];
        assert(one.len() == 1);
        assert(one.drop_last() =~= Seq::<Contribution>::empty());
        assert(one.last() == c);
        assert(weight_of(one.drop_last(), m) == 0);
    }
}

impl EpochSnapshot {
    /// Members are distinct and the recorded total is the sum of the scores.
    pub open spec fn wf(&self) -> bool {
        &&& distinct_members(self.entries@)
        &&& self.total_score == total_score(self.entries@)
    }
}

/// The live epoch state. All mutation goes through `record` and `drain_and_reset`.
pub struct Aggregator {
    epoch: u64,
    entries: Vec<Entry>,
    total: u64,
    history: Ghost<Seq<Event>>,
}

impl Aggregator {
    /// Identifier of the live epoch.
    pub closed spec fn epoch(&self) -> u64 {
        self.epoch
    }

    /// Live scores, in order of each member's first contribution.
    pub closed spec fn scores(&self) -> Seq<Entry> {
        self.entries@
    }

    /// Everything that happened to the aggregator since it was made.
    pub closed spec fn history(&self) -> Seq<Event> {
        self.history@
    }

    /// The contributions recorded since the last drain, oldest first.
    pub open spec fn log(&self) -> Seq<Contribution> {
        live_log(self.history())
    }

    /// The scores are those of the live log, and the epoch's identifier counts the drains.
    pub closed spec fn wf(&self) -> bool {
        &&& self.entries@ == replay(live_log(self.history@))
        &&& distinct_members(self.entries@)
        &&& self.total == total_score(self.entries@)
        &&& self.total == weight_sum(live_log(self.history@))
        &&& self.epoch == drained_logs(self.history@).len()
    }

    /// An aggregator at the start of its first epoch.
    pub fn new() -> (a: Aggregator)
        ensures
            a.wf(),
            a.epoch() == 0,
            a.scores() == Seq::<Entry>::empty(),
            a.history() == Seq::<Event>::empty(),
    {
        Aggregator { epoch: 0, entries: Vec::new(), total: 0, history: Ghost(Seq::empty()) }
    }

    /// Identifier of the live epoch.
    pub fn current_epoch(&self) -> (e: u64)
        ensures
            e == self.epoch(),
    {
        self.epoch
    }

    /// Sum of all live scores.
    pub fn live_total(&self) -> (t: u64)
        requires
            self.wf(),
        ensures
            t == total_score(self.scores()),
            t == weight_sum(self.log()),
    {
        self.total
    }

    /// Adds the contribution's weight to its member's live score.
    #[verifier::loop_isolation(false)]
    pub fn record(&mut self, c: Contribution)
        requires
            old(self).wf(),
            total_score(old(self).scores()) + c.score <= u64::MAX,
        ensures
            final(self).wf(),
            final(self).epoch() == old(self).epoch(),
            final(self).history() == old(self).history().push(Event::Recorded(c)),
            final(self).log() == old(self).log().push(c),
            weight_sum(final(self).log()) == weight_sum(old(self).log()) + c.score,
            final(self).scores() == recorded(old(self).scores(), c),
            total_score(final(self).scores()) == total_score(old(self).scores()) + c.score,
            forall|m: Seq<u8>|
                #[trigger] score_of(final(self).scores(), m) == score_of(old(self).scores(), m) + (
                if m == c.member@ {
                    c.score as nat
                } else {
                    0
                }),
    {
        let ghost before = self.entries@;
        let ghost next = self.history@.push(Event::Recorded(c));
        proof {
            lemma_recorded(before, c);
            assert(next.drop_last() =~= self.history@);
            assert(live_log(next) == live_log(self.history@).push(c));
            assert(live_log(next).drop_last() =~= live_log(self.history@));
        }
        let n = self.entries.len();
        let mut i: usize = 0;
        while i < n
            invariant
                i <= n,
                n == self.entries@.len(),
                *self == *old(self),
                forall|j: int| 0 <= j < i ==> #[trigger] before[j].member@ != c.member@,
            decreases n - i,
        {
            if self.entries[i].member.same(&c.member) {
                let found = self.entries[i];
                proof {
                    lemma_score_bounded(before, i as int);
                    // the first match is the only one, so it is the one the model picks
                    let k = choose|k: int|
                        0 <= k < before.len() && #[trigger] before[k].member@ == c.member@;
                    assert(before[i as int].member@ == c.member@);
                    assert(k == i);
                }
                self.entries.set(i, Entry { member: found.member, score: found.score + c.score });
                self.total = self.total + c.score;
                self.history = Ghost(next);
                return ;
            }
            i += 1;
        }
        proof {
            assert(!holds_member(before, c.member@));
        }
        self.entries.push(Entry { member: c.member, score: c.score });
        self.total = self.total + c.score;
        self.history = Ghost(next);
    }

    /// Records the contribution where the epoch's total score stays within 64
    /// bits, and says whether it did. A contribution that does not fit leaves
    /// the aggregator as it was.
    pub fn try_record(&mut self, c: Contribution) -> (done: bool)
        requires
            old(self).wf(),
        ensures
            final(self).wf(),
            done == (weight_sum(old(self).log()) + c.score <= u64::MAX),
            !done ==> *final(self) == *old(self),
            done ==> {
                &&& final(self).epoch() == old(self).epoch()
                &&& final(self).history() == old(self).history().push(Event::Recorded(c))
                &&& final(self).log() == old(self).log().push(c)
                &&& final(self).scores() == recorded(old(self).scores(), c)
                &&& weight_sum(final(self).log()) == weight_sum(old(self).log()) + c.score
                &&& forall|m: Seq<u8>|
                    #[trigger] score_of(final(self).scores(), m) == score_of(old(self).scores(), m)
                        + (if m == c.member@ {
                        c.score as nat
                    } else {
                        0
                    })
            },
    {
        if self.total > u64::MAX - c.score {
            return false;
        }
        self.record(c);
        true
    }

    /// The member's live score, contributions not yet settled included.
    #[verifier::loop_isolation(false)]
    pub fn query(&self, member: &Address) -> (score: u64)
        requires
            self.wf(),
        ensures
            score == score_of(self.scores(), member@),
            score == weight_of(self.log(), member@),
    {
        proof {
            lemma_conservation(live_log(self.history@));
        }
        let n = self.entries.len();
        let mut i: usize = 0;
        while i < n
            invariant
                i <= n,
                n == self.entries@.len(),
                forall|j: int| 0 <= j < i ==> #[trigger] self.entries@[j].member@ != member@,
            decreases n - i,
        {
            if self.entries[i].member.same(member) {
                proof {
                    lemma_score_of_entry(self.entries@, i as int);
                }
                return self.entries[i].score;
            }
            i += 1;
        }
        proof {
            assert(!holds_member(self.entries@, member@));
            lemma_score_of_absent(self.entries@, member@);
        }
        0
    }

    /// Hands over the whole live epoch as a snapshot and starts the next epoch empty.
    pub fn drain_and_reset(&mut self, reservoir: u64) -> (snapshot: EpochSnapshot)
        requires
            old(self).wf(),
            old(self).epoch() < u64::MAX,
        ensures
            snapshot.wf(),
            snapshot.epoch == old(self).epoch(),
            snapshot.epoch == drained_logs(old(self).history()).len(),
            snapshot.entries@ == old(self).scores(),
            snapshot.entries@ == replay(old(self).log()),
            snapshot.total_score == weight_sum(old(self).log()),
            forall|m: Seq<u8>| #[trigger]
                score_of(snapshot.entries@, m) == weight_of(old(self).log(), m),
            snapshot.reservoir == reservoir,
            final(self).wf(),
            final(self).epoch() == old(self).epoch() + 1,
            final(self).scores() == Seq::<Entry>::empty(),
            final(self).history() == old(self).history().push(Event::Drained),
            final(self).log() == Seq::<Contribution>::empty(),
    {
        let ghost next = self.history@.push(Event::Drained);
        proof {
            assert(next.drop_last() =~= self.history@);
            lemma_conservation(live_log(self.history@));
        }
        let mut entries: Vec<Entry> = Vec::new();
        std::mem::swap(&mut entries, &mut self.entries);
        let snapshot = EpochSnapshot {
            epoch: self.epoch,
            entries,
            total_score: self.total,
            reservoir,
        };
        self.epoch = self.epoch + 1;
        self.total = 0;
        self.history = Ghost(next);
        snapshot
    }

    /// Drains the live epoch where another epoch identifier is left to start
    /// the next one with. Where none is left, nothing is drained and the
    /// aggregator stays as it was.
    pub fn try_drain_and_reset(&mut self, reservoir: u64) -> (drained: Option<EpochSnapshot>)
        requires
            old(self).wf(),
        ensures
            final(self).wf(),
            drained is Some <==> old(self).epoch() < u64::MAX,
            drained is None ==> *final(self) == *old(self),
            drained matches Some(snapshot) ==> {
                &&& snapshot.wf()
                &&& snapshot.epoch == old(self).epoch()
                &&& snapshot.epoch == drained_logs(old(self).history()).len()
                &&& snapshot.entries@ == replay(old(self).log())
                &&& snapshot.total_score == weight_sum(old(self).log())
                &&& forall|m: Seq<u8>| #[trigger]
                    score_of(snapshot.entries@, m) == weight_of(old(self).log(), m)
                &&& snapshot.reservoir == reservoir
                &&& final(self).epoch() == old(self).epoch() + 1
                &&& final(self).scores() == Seq::<Entry>::empty()
                &&& final(self).history() == old(self).history().push(Event::Drained)
                &&& final(self).log() == Seq::<Contribution>::empty()
            },
    {
        if self.epoch == u64::MAX {
            return None;
        }
        Some(self.drain_and_reset(reservoir))
    }
}

} // verus!
