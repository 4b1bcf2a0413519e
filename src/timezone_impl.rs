use crate::binary_search::{binary_search, is_monotonic, ordering_rank};
use std::cmp::Ordering;
use time::error::ComponentRange;
use time::{OffsetDateTime, UtcOffset};
use vstd::prelude::*;

verus! {

#[verifier::external_type_specification]
#[verifier::external_body]
pub struct ExOffsetDateTime(OffsetDateTime);

#[verifier::external_type_specification]
#[verifier::external_body]
pub struct ExUtcOffset(UtcOffset);

#[verifier::external_type_specification]
#[verifier::external_body]
pub struct ExComponentRange(ComponentRange);

/// The instant `d` as whole seconds since the Unix epoch.
pub uninterp spec fn unix_time_of(d: OffsetDateTime) -> i64;

/// The offset `o` from UTC in whole seconds.
pub uninterp spec fn offset_seconds_of(o: UtcOffset) -> i32;

/// Relies on `time::OffsetDateTime::unix_timestamp`: the instant as whole
/// seconds since the Unix epoch, a function of the value alone.
pub assume_specification[ OffsetDateTime::unix_timestamp ](self_: OffsetDateTime) -> (r: i64)
    ensures
        r == unix_time_of(self_),
;

/// Relies on `time::UtcOffset::from_whole_seconds`: it succeeds exactly when
/// the offset lies within 25:59:59 of UTC either way, and the offset it makes
/// holds the seconds given.
pub assume_specification[ UtcOffset::from_whole_seconds ](seconds: i32) -> (r: Result<
    UtcOffset,
    ComponentRange,
>)
    ensures
        r is Ok <==> MIN_UTC_OFFSET <= seconds <= MAX_UTC_OFFSET,
        r matches Ok(o) ==> offset_seconds_of(o) == seconds,
;

/// Relies on `time::UtcOffset::whole_seconds`: the offset in whole seconds.
pub assume_specification[ UtcOffset::whole_seconds ](self_: UtcOffset) -> (r: i32)
    ensures
        r == offset_seconds_of(self_),
;

/// Smallest offset from UTC, in seconds, that an offset record may hold.
pub const MIN_UTC_OFFSET: i64 = -93599;

/// Largest offset from UTC, in seconds, that an offset record may hold.
pub const MAX_UTC_OFFSET: i64 = 93599;

/// The stretch of the timeline that one record of a set covers: from `start`
/// included to `end` excluded, where a missing bound means no bound.
pub struct Span {
    pub start: Option<i64>,
    pub end: Option<i64>,
}

impl Span {
    /// Where the span lies relative to `x`: `Equal` when it holds `x`, `Less`
    /// when it ends at or before `x`, `Greater` when it starts after `x`.
    pub open spec fn order_of(&self, x: int) -> Ordering {
        match (self.start, self.end) {
            (Some(a), Some(b)) => if a <= x && x < b {
                Ordering::Equal
            } else if b <= x {
                Ordering::Less
            } else {
                Ordering::Greater
            },
            (Some(a), None) => if a <= x {
                Ordering::Equal
            } else {
                Ordering::Greater
            },
            (None, Some(b)) => if b <= x {
                Ordering::Less
            } else {
                Ordering::Equal
            },
            (None, None) => Ordering::Equal,
        }
    }

    pub fn cmp(&self, x: i64) -> (r: Ordering)
        ensures
            r == self.order_of(x as int),
    {
        match (self.start, self.end) {
            (Some(a), Some(b)) => if a <= x && x < b {
                Ordering::Equal
            } else if b <= x {
                Ordering::Less
            } else {
                Ordering::Greater
            },
            (Some(a), None) => if a <= x {
                Ordering::Equal
            } else {
                Ordering::Greater
            },
            (None, Some(b)) => if b <= x {
                Ordering::Less
            } else {
                Ordering::Equal
            },
            (None, None) => Ordering::Equal,
        }
    }
}

/// One era of a zone's history: its offset from UTC, its daylight-saving
/// offset, both in seconds, and its abbreviation.
#[derive(Debug, PartialEq, Eq)]
pub struct FixedTimespan {
    pub utc_offset: i64,
    pub dst_offset: i64,
    pub name: &'static str,
}

impl FixedTimespan {
    /// The offset from UTC can be expressed as a `UtcOffset`.
    pub open spec fn offset_in_range(&self) -> bool {
        MIN_UTC_OFFSET <= self.utc_offset <= MAX_UTC_OFFSET
    }
}

/// A zone's history: the record `first`, in force before the first transition,
/// then each transition instant with the record in force from it on.
#[derive(Debug, PartialEq, Eq)]
pub struct FixedTimespanSet {
    pub name: &'static str,
    pub first: FixedTimespan,
    pub others: &'static [(i64, FixedTimespan)],
}

impl FixedTimespanSet {
    /// Number of records: `first` and one per transition.
    pub open spec fn num_records(&self) -> int {
        1 + self.others@.len() as int
    }

    /// The instant of transition `k`.
    pub open spec fn transition(&self, k: int) -> int {
        self.others@[k].0 as int
    }

    /// Record `i`: `first` for index 0, else the record of transition `i - 1`.
    pub open spec fn record(&self, i: int) -> FixedTimespan {
        if i == 0 {
            self.first
        } else {
            self.others@[i - 1].1
        }
    }

    /// The transitions come in strictly increasing order of their instants.
    pub open spec fn transitions_increasing(&self) -> bool {
        forall|j: int, k: int|
            0 <= j < k < self.others@.len() ==> #[trigger] self.transition(j)
                < #[trigger] self.transition(k)
    }

    /// Every record's offset can be expressed as a `UtcOffset`.
    pub open spec fn offsets_in_range(&self) -> bool {
        &&& self.first.offset_in_range()
        &&& forall|k: int| 0 <= k < self.others@.len() ==> (#[trigger] self.others@[k]).1.offset_in_range()
    }

    /// The invariants that a set must meet to be queried.
    pub open spec fn wf(&self) -> bool {
        &&& self.transitions_increasing()
        &&& self.offsets_in_range()
        &&& self.others@.len() < usize::MAX
    }

    /// Record `i` is in force at instant `t`: `t` is at or after its start (none
    /// for record 0) and before its end (none for the last record).
    pub open spec fn covers(&self, i: int, t: int) -> bool {
        &&& 0 <= i < self.num_records()
        &&& (i == 0 || self.transition(i - 1) <= t)
        &&& (i == self.others@.len() || t < self.transition(i))
    }

    /// Index of the record in force at instant `t`.
    pub open spec fn index_at(&self, t: int) -> int {
        choose|i: int| self.covers(i, t)
    }

    /// The record in force at instant `t`.
    pub open spec fn record_at(&self, t: int) -> FixedTimespan {
        self.record(self.index_at(t))
    }

    /// The span of record `i`.
    pub open spec fn span_of(&self, i: int) -> Span {
        Span {
            start: if i == 0 {
                None
            } else {
                Some(self.others@[i - 1].0)
            },
            end: if i >= self.others@.len() {
                None
            } else {
                Some(self.others@[i].0)
            },
        }
    }

    pub fn len(&self) -> (r: usize)
        requires
            self.others@.len() < usize::MAX,
        ensures
            r == self.num_records(),
    {
        1 + self.others.len()
    }

    pub fn span_utc(&self, i: usize) -> (r: Span)
        requires
            i < self.num_records(),
        ensures
            r == self.span_of(i as int),
    {
        let start = if i == 0 {
            None
        } else {
            Some(self.others[i - 1].0)
        };
        let end = if i >= self.others.len() {
            None
        } else {
            Some(self.others[i].0)
        };
        Span { start, end }
    }

    pub fn index(&self, index: usize) -> (r: &FixedTimespan)
        requires
            index < self.num_records(),
        ensures
            *r == self.record(index as int),
    {
        if index == 0 {
            &self.first
        } else {
            &self.others[index - 1].1
        }
    }

    /// Whether the set meets the invariants under which it can be queried.
    pub fn is_valid(&self) -> (r: bool)
        ensures
            r == self.wf(),
    {
        if self.others.len() == usize::MAX {
            return false;
        }
        if !(MIN_UTC_OFFSET <= self.first.utc_offset && self.first.utc_offset <= MAX_UTC_OFFSET) {
            return false;
        }
        let mut k: usize = 0;
        while k < self.others.len()
            invariant
                0 <= k <= self.others@.len(),
                self.first.offset_in_range(),
                forall|m: int| 0 <= m < k ==> (#[trigger] self.others@[m]).1.offset_in_range(),
                forall|m: int| 0 <= m && m + 1 < k ==> #[trigger] self.transition(m) < self.transition(m + 1),
            decreases self.others@.len() - k,
        {
            let u = self.others[k].1.utc_offset;
            if !(MIN_UTC_OFFSET <= u && u <= MAX_UTC_OFFSET) {
                assert(!self.others@[k as int].1.offset_in_range());
                return false;
            }
            if k > 0 && self.others[k - 1].0 >= self.others[k].0 {
                assert(self.transition(k as int - 1) >= self.transition(k as int));
                return false;
            }
            assert(k > 0 ==> self.transition(k as int - 1) < self.transition(k as int));
            k = k + 1;
        }
        proof {
            assert forall|j: int, l: int| 0 <= j < l < self.others@.len() implies #[trigger] self.transition(j)
                < #[trigger] self.transition(l) by {
                lemma_chain_increasing(self, j, l);
            }
        }
        true
    }
}

proof fn lemma_chain_increasing(set: &FixedTimespanSet, j: int, l: int)
    requires
        0 <= j < l < set.others@.len(),
        forall|m: int| 0 <= m && m + 1 < set.others@.len() ==> #[trigger] set.transition(m) < set.transition(m + 1),
    ensures
        set.transition(j) < set.transition(l),
    decreases l - j,
{
    assert(set.transition(l - 1) < set.transition(l));
    if j < l - 1 {
        lemma_chain_increasing(set, j, l - 1);
    }
}

/// Comparing instant `t` with the span of record `i` gives `Equal` exactly when
/// the record is in force at `t`, `Less` when its span ends at or before `t`,
/// and `Greater` when its span starts after `t`.
pub proof fn lemma_order_equal_iff_covers(set: &FixedTimespanSet, i: int, t: int)
    requires
        set.wf(),
        0 <= i < set.num_records(),
    ensures
        set.span_of(i).order_of(t) == Ordering::Equal <==> set.covers(i, t),
        set.span_of(i).order_of(t) == Ordering::Less <==> (i < set.others@.len() && set.transition(i) <= t),
        set.span_of(i).order_of(t) == Ordering::Greater <==> (i > 0 && t < set.transition(i - 1)),
{
    if 0 < i < set.others@.len() {
        assert(set.transition(i - 1) < set.transition(i));
    }
}

/// For any instant, comparing it with the spans of a well-formed set in index
/// order gives first `Less`, then `Equal`, then `Greater`, never out of order.
pub proof fn lemma_order_monotonic(set: &FixedTimespanSet, t: int)
    requires
        set.wf(),
    ensures
        is_monotonic(|i: int| set.span_of(i).order_of(t), 0, set.num_records()),
{
    let order = |i: int| set.span_of(i).order_of(t);
    assert forall|i: int, j: int| 0 <= i <= j < set.num_records() implies ordering_rank(
        #[trigger] order(i),
    ) <= ordering_rank(#[trigger] order(j)) by {
        lemma_order_equal_iff_covers(set, i, t);
        lemma_order_equal_iff_covers(set, j, t);
        if i < j {
            if j < set.others@.len() {
                assert(set.transition(i) < set.transition(j));
            }
            if i > 0 {
                assert(set.transition(i - 1) < set.transition(j - 1));
            }
        }
    }
}

proof fn lemma_cover_from(set: &FixedTimespanSet, t: int, k: int)
    requires
        0 <= k <= set.others@.len(),
        k == 0 || set.transition(k - 1) <= t,
    ensures
        exists|i: int| set.covers(i, t),
    decreases set.others@.len() - k,
{
    if k == set.others@.len() || t < set.transition(k) {
        assert(set.covers(k, t));
    } else {
        lemma_cover_from(set, t, k + 1);
    }
}

/// Every instant lies in the span of exactly one record of a well-formed set.
pub proof fn lemma_exactly_one_record(set: &FixedTimespanSet, t: int)
    requires
        set.wf(),
    ensures
        exists|i: int| set.covers(i, t),
        forall|i: int, j: int| set.covers(i, t) && set.covers(j, t) ==> i == j,
        set.covers(set.index_at(t), t),
{
    lemma_cover_from(set, t, 0);
    assert forall|i: int, j: int| set.covers(i, t) && set.covers(j, t) implies i == j by {
        if i < j {
            if i < j - 1 {
                assert(set.transition(i) < set.transition(j - 1));
            }
        } else if j < i {
            if j < i - 1 {
                assert(set.transition(j) < set.transition(i - 1));
            }
        }
    }
}

/// At a transition from record `A` to record `B`, the instant just before it
/// is in `A` and the transition instant itself is in `B`.
pub proof fn lemma_transition_boundary(set: &FixedTimespanSet, k: int)
    requires
        set.wf(),
        0 <= k < set.others@.len(),
    ensures
        set.record_at(set.transition(k) - 1) == set.record(k),
        set.record_at(set.transition(k)) == set.record(k + 1),
{
    let t = set.transition(k);
    lemma_exactly_one_record(set, t - 1);
    lemma_exactly_one_record(set, t);
    if k > 0 {
        assert(set.transition(k - 1) < t);
    }
    assert(set.covers(k, t - 1));
    if k + 1 < set.others@.len() {
        assert(t < set.transition(k + 1));
    }
    assert(set.covers(k + 1, t));
}

/// Before the first transition, and at every instant when there is none, the
/// record in force is `first`; from the last transition on, it is the last
/// record.
pub proof fn lemma_unbounded_ends(set: &FixedTimespanSet, t: int)
    requires
        set.wf(),
    ensures
        set.others@.len() == 0 || t < set.transition(0) ==> set.record_at(t) == set.first,
        set.others@.len() > 0 && set.transition(set.others@.len() - 1) <= t ==> set.record_at(t)
            == set.record(set.num_records() - 1),
{
    lemma_exactly_one_record(set, t);
    let n = set.others@.len() as int;
    if n == 0 || t < set.transition(0) {
        assert(set.covers(0, t));
    }
    if n > 0 && set.transition(n - 1) <= t {
        assert(set.covers(n, t));
    }
}

/// A set without transitions has `first` in force at every instant, the
/// extreme instants included.
pub proof fn lemma_singleton(set: &FixedTimespanSet)
    requires
        set.wf(),
        set.others@.len() == 0,
    ensures
        forall|t: int| #[trigger] set.record_at(t) == set.first,
        set.record_at(i64::MIN as int) == set.first,
        set.record_at(i64::MAX as int) == set.first,
{
    assert forall|t: int| #[trigger] set.record_at(t) == set.first by {
        lemma_unbounded_ends(set, t);
    }
}

/// The offset in force at one instant in a zone.
#[derive(Debug, PartialEq, Eq)]
pub struct TzOffset {
    timespan: &'static FixedTimespan,
}

impl TzOffset {
    #[verifier::type_invariant]
    spec fn inv(&self) -> bool {
        self.timespan.offset_in_range()
    }

    /// The record that this offset stands for.
    pub closed spec fn record(&self) -> FixedTimespan {
        *self.timespan
    }

    /// The offset from UTC as a `UtcOffset`.
    pub fn to_utc(&self) -> (r: UtcOffset)
        ensures
            offset_seconds_of(r) == self.record().utc_offset,
    {
        proof {
            use_type_invariant(self);
        }
        UtcOffset::from_whole_seconds(self.timespan.utc_offset as i32).unwrap()
    }

    /// The abbreviation of the record, as stored.
    pub fn name(&self) -> (r: &str)
        ensures
            r@ == self.record().name@,
    {
        self.timespan.name
    }
}

/// A zone: a handle on one well-formed set of time spans.
#[derive(Debug, PartialEq, Eq)]
pub struct Tz {
    set: &'static FixedTimespanSet,
}

impl Tz {
    #[verifier::type_invariant]
    spec fn inv(&self) -> bool {
        self.set.wf()
    }

    /// The set of time spans that the zone holds.
    pub closed spec fn timespans(&self) -> FixedTimespanSet {
        *self.set
    }

    /// The offset in force at `timestamp`, in seconds since the Unix epoch.
    pub fn get_offset_at_timestamp(&self, timestamp: i64) -> (r: TzOffset)
        ensures
            r.record() == self.timespans().record_at(timestamp as int),
    {
        proof {
            use_type_invariant(self);
        }
        let set: &'static FixedTimespanSet = self.set;
        let ghost t = timestamp as int;
        proof {
            lemma_order_monotonic(set, t);
            lemma_exactly_one_record(set, t);
        }
        let compare = |i: usize| -> (o: Ordering)
            requires
                i < set.num_records(),
            ensures
                o == set.span_of(i as int).order_of(timestamp as int),
        {
            let span = set.span_utc(i);
            span.cmp(timestamp)
        };
        let ghost order = |i: int| set.span_of(i).order_of(t);
        let found = binary_search(0, set.len(), compare, Ghost(order));
        proof {
            let w = set.index_at(t);
            lemma_order_equal_iff_covers(set, w, t);
            assert(order(w) == Ordering::Equal);
            if let Some(i) = found {
                assert(order(i as int) == Ordering::Equal);
                lemma_order_equal_iff_covers(set, i as int, t);
                assert(i as int == w);
            }
        }
        let index = found.unwrap();
        let timespan = set.index(index);
        TzOffset { timespan }
    }

    /// The offset in force at the instant `date_time`.
    pub fn get_offset_utc(&self, date_time: &OffsetDateTime) -> (r: TzOffset)
        ensures
            r.record() == self.timespans().record_at(unix_time_of(*date_time) as int),
    {
        let timestamp = date_time.unix_timestamp();
        self.get_offset_at_timestamp(timestamp)
    }

    /// The zone's identifier.
    pub fn name(&self) -> (r: &str)
        ensures
            r@ == self.timespans().name@,
    {
        self.set.name
    }
}

/// Two zones over equal sets of time spans are equal.
pub proof fn lemma_zone_equal(a: Tz, b: Tz)
    requires
        a.timespans() == b.timespans(),
    ensures
        a == b,
{
}

/// Two resolved offsets that stand for equal records are equal.
pub proof fn lemma_offset_equal(a: TzOffset, b: TzOffset)
    requires
        a.record() == b.record(),
    ensures
        a == b,
{
}

/// A zone over `set`.
pub fn internal_tz_new(set: &'static FixedTimespanSet) -> (r: Tz)
    requires
        set.wf(),
    ensures
        r.timespans() == *set,
{
    Tz { set }
}

} // verus!
