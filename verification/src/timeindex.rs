//! The time index of a sequence of records, and the histogram over it.

use crate::instant::{Instant, CALENDAR_LIMIT};
use crate::record::{records_of, ParsedLine, Record};
use crate::timestamp::{current_year, normalized, Normalizer};
use vstd::prelude::*;

pub use crate::timestamp::parse_timestamp;

verus! {

/// The instant of each record of a sequence: its own where its timestamp
/// could be read, else that of the nearest record before it that has one.
#[derive(Debug, Clone)]
pub struct TimeIndex {
    /// The instant of each record, forward-filled.
    pub timestamps: Vec<Option<Instant>>,
    /// The earliest instant that a record wrote itself.
    pub min_ts: Option<Instant>,
    /// The latest instant that a record wrote itself.
    pub max_ts: Option<Instant>,
    /// The format that read the last timestamp, which is tried first on the
    /// next one.
    pub last_format: Option<usize>,
}

/// A histogram of the records over time, in buckets of equal duration.
#[derive(Debug, Clone)]
pub struct SparklineData {
    /// The number of records in each bucket.
    pub buckets: Vec<u64>,
    /// The instant at which each bucket starts.
    pub bucket_starts: Vec<Instant>,
    pub bucket_duration_secs: i64,
    pub num_buckets: usize,
}

/// A range of time, both ends included.
#[derive(Debug, Clone, Copy)]
pub struct TimeRange {
    pub start: Instant,
    pub end: Instant,
}

/// The selection of a range of buckets in progress.
#[derive(Debug, Clone, Copy)]
pub struct TimeModeState {
    pub cursor_bucket: usize,
    pub range_start: Option<usize>,
    pub dragging: bool,
    pub drag_start: Option<usize>,
}

/// The timestamp text of each record.
pub open spec fn timestamp_texts(records: Seq<Record>) -> Seq<Option<Seq<char>>> {
    Seq::new(records.len(), |i: int| records[i].timestamp)
}

/// What is read of one record, and the format kept after it: a record
/// without a timestamp text reads as nothing and keeps the format.
pub open spec fn reading_of(text: Option<Seq<char>>, last: Option<usize>, year: i32) -> (
    Option<Instant>,
    Option<usize>,
) {
    match text {
        Some(t) => normalized(t, last, year),
        None => (None, last),
    }
}

/// What is read of each record in turn, each reading starting with the
/// format that the one before kept, and the format kept at the end.
pub open spec fn readings(texts: Seq<Option<Seq<char>>>, last: Option<usize>, year: i32) -> (
    Seq<Option<Instant>>,
    Option<usize>,
)
    decreases texts.len(),
{
    if texts.len() == 0 {
        (Seq::empty(), last)
    } else {
        let before = readings(texts.drop_last(), last, year);
        let this = reading_of(texts.last(), before.1, year);
        (before.0.push(this.0), this.1)
    }
}

/// The last instant of a sequence, where it has one.
pub open spec fn last_of(resolved: Seq<Option<Instant>>) -> Option<Instant> {
    if resolved.len() == 0 {
        None
    } else {
        resolved.last()
    }
}

/// Forward fill: each place keeps its own instant where it has one, and else
/// takes that of the place before it; the first place takes the seed.
pub open spec fn filled(direct: Seq<Option<Instant>>, seed: Option<Instant>) -> Seq<
    Option<Instant>,
>
    decreases direct.len(),
{
    if direct.len() == 0 {
        Seq::empty()
    } else {
        let before = filled(direct.drop_last(), seed);
        before.push(
            match direct.last() {
                Some(t) => Some(t),
                None => if before.len() == 0 {
                    seed
                } else {
                    before.last()
                },
            },
        )
    }
}

/// The earlier of an instant and what was the earliest so far.
pub open spec fn earlier_of(so_far: Option<Instant>, t: Option<Instant>) -> Option<Instant> {
    match (so_far, t) {
        (Some(a), Some(b)) => if b.is_before(a) {
            Some(b)
        } else {
            Some(a)
        },
        (None, Some(b)) => Some(b),
        (_, None) => so_far,
    }
}

/// The later of an instant and what was the latest so far.
pub open spec fn later_of(so_far: Option<Instant>, t: Option<Instant>) -> Option<Instant> {
    match (so_far, t) {
        (Some(a), Some(b)) => if a.is_before(b) {
            Some(b)
        } else {
            Some(a)
        },
        (None, Some(b)) => Some(b),
        (_, None) => so_far,
    }
}

/// The earliest of the instants and of `start`.
pub open spec fn earliest(direct: Seq<Option<Instant>>, start: Option<Instant>) -> Option<
    Instant,
>
    decreases direct.len(),
{
    if direct.len() == 0 {
        start
    } else {
        earlier_of(earliest(direct.drop_last(), start), direct.last())
    }
}

/// The latest of the instants and of `start`.
pub open spec fn latest(direct: Seq<Option<Instant>>, start: Option<Instant>) -> Option<Instant>
    decreases direct.len(),
{
    if direct.len() == 0 {
        start
    } else {
        later_of(latest(direct.drop_last(), start), direct.last())
    }
}

/// Whether every instant of the sequence is one of the calendar.
pub open spec fn all_calendar(resolved: Seq<Option<Instant>>) -> bool {
    forall|i: int|
        0 <= i < resolved.len() ==> ((#[trigger] resolved[i]) matches Some(t) ==> t.is_calendar())
}

impl TimeIndex {
    /// The instant of each record, forward-filled.
    pub open spec fn resolved(&self) -> Seq<Option<Instant>> {
        self.timestamps@
    }

    /// The format that read the last timestamp.
    pub open spec fn kept_format(&self) -> Option<usize> {
        self.last_format
    }

    /// Whether the index holds instants of the calendar only.
    pub open spec fn wf(&self) -> bool {
        &&& all_calendar(self.resolved())
        &&& self.min_ts matches Some(t) ==> t.is_calendar()
        &&& self.max_ts matches Some(t) ==> t.is_calendar()
    }

    /// What the index is after `records` were added to `old`, timestamps
    /// without a year being read as of `year`: the instants of the new
    /// records follow those of the old ones, filled forward from the last of
    /// them; the earliest and latest are extended by what the new records
    /// wrote themselves.
    pub open spec fn extends(&self, old: &TimeIndex, records: Seq<Record>, year: i32) -> bool {
        let read = readings(timestamp_texts(records), old.kept_format(), year);
        &&& self.resolved() == old.resolved() + filled(read.0, last_of(old.resolved()))
        &&& self.min_ts == earliest(read.0, old.min_ts)
        &&& self.max_ts == latest(read.0, old.max_ts)
        &&& self.kept_format() == read.1
    }

    /// What the index of `records` is, timestamps without a year being read
    /// as of `year`.
    pub open spec fn indexes(&self, records: Seq<Record>, year: i32) -> bool {
        let read = readings(timestamp_texts(records), None, year);
        &&& self.resolved() == filled(read.0, None)
        &&& self.min_ts == earliest(read.0, None)
        &&& self.max_ts == latest(read.0, None)
        &&& self.kept_format() == read.1
    }

    /// Whether the index holds instants of the calendar only.
    pub fn is_well_formed(&self) -> (r: bool)
        ensures
            r == self.wf(),
    {
        let mut i: usize = 0;
        while i < self.timestamps.len()
            invariant
                i <= self.timestamps.len(),
                forall|k: int|
                    0 <= k < i ==> ((#[trigger] self.timestamps[k]) matches Some(t)
                        ==> t.is_calendar()),
            decreases self.timestamps.len() - i,
        {
            match self.timestamps[i] {
                Some(t) => {
                    if !t.in_calendar() {
                        return false;
                    }
                },
                None => {},
            }
            i += 1;
        }
        let min_ok = match self.min_ts {
            Some(t) => t.in_calendar(),
            None => true,
        };
        let max_ok = match self.max_ts {
            Some(t) => t.in_calendar(),
            None => true,
        };
        min_ok && max_ok
    }

    /// An index of no records.
    pub fn new() -> (r: TimeIndex)
        ensures
            r.resolved() == Seq::<Option<Instant>>::empty(),
            r.min_ts is None,
            r.max_ts is None,
            r.kept_format() is None,
            r.wf(),
    {
        TimeIndex { timestamps: Vec::new(), min_ts: None, max_ts: None, last_format: None }
    }

    /// Whether any record wrote a timestamp that could be read.
    pub fn has_timestamps(&self) -> (r: bool)
        ensures
            r == (self.min_ts is Some && self.max_ts is Some),
    {
        self.min_ts.is_some() && self.max_ts.is_some()
    }

    /// The instant of the record at `idx`; none where the index has no such
    /// record or the record has no instant.
    pub fn timestamp_at(&self, idx: usize) -> (r: Option<Instant>)
        ensures
            r == if idx < self.resolved().len() {
                self.resolved()[idx as int]
            } else {
                None
            },
    {
        if idx < self.timestamps.len() {
            self.timestamps[idx]
        } else {
            None
        }
    }

    /// The number of records in the index.
    pub fn len(&self) -> (r: usize)
        ensures
            r == self.resolved().len(),
    {
        self.timestamps.len()
    }

    /// Whether the index has no records.
    pub fn is_empty(&self) -> (r: bool)
        ensures
            r == (self.resolved().len() == 0),
    {
        self.timestamps.len() == 0
    }

    /// Extends the index with new records, timestamps without a year being
    /// read as of `year`.
    pub fn append_in(&mut self, lines: &[ParsedLine], year: i32)
        ensures
            final(self).extends(old(self), records_of(lines@), year),
            old(self).wf() ==> final(self).wf(),
            final(self).resolved().len() == old(self).resolved().len() + lines.len(),
    {
        let mut reader = Normalizer { last_format: self.last_format };
        let mut last_ts: Option<Instant> = if self.timestamps.len() == 0 {
            None
        } else {
            self.timestamps[self.timestamps.len() - 1]
        };
        let ghost texts = timestamp_texts(records_of(lines@));
        let ghost seed = last_of(old(self).resolved());
        let mut i: usize = 0;
        proof {
            assert(texts.subrange(0, 0) =~= Seq::empty());
            assert(self.timestamps@ =~= old(self).timestamps@ + Seq::empty());
        }
        while i < lines.len()
            invariant
                i <= lines.len(),
                texts == timestamp_texts(records_of(lines@)),
                seed == last_of(old(self).resolved()),
                self.timestamps@ == old(self).timestamps@ + filled(
                    readings(texts.subrange(0, i as int), old(self).last_format, year).0,
                    seed,
                ),
                self.min_ts == earliest(
                    readings(texts.subrange(0, i as int), old(self).last_format, year).0,
                    old(self).min_ts,
                ),
                self.max_ts == latest(
                    readings(texts.subrange(0, i as int), old(self).last_format, year).0,
                    old(self).max_ts,
                ),
                reader.last_format == readings(
                    texts.subrange(0, i as int),
                    old(self).last_format,
                    year,
                ).1,
                last_ts == last_of(self.timestamps@),
                old(self).wf() ==> all_calendar(self.timestamps@),
                old(self).wf() ==> (self.min_ts matches Some(t) ==> t.is_calendar()),
                old(self).wf() ==> (self.max_ts matches Some(t) ==> t.is_calendar()),
            decreases lines.len() - i,
        {
            let ghost before = readings(texts.subrange(0, i as int), old(self).last_format, year);
            let ghost filled_before = filled(before.0, seed);
            proof {
                let upto = texts.subrange(0, i + 1);
                assert(upto.drop_last() =~= texts.subrange(0, i as int));
                assert(upto.last() == lines[i as int]@.timestamp);
                assert(filled_before.len() == before.0.len()) by {
                    lemma_filled_len(before.0, seed);
                }
                assert(before.0.push(reading_of(upto.last(), before.1, year).0).drop_last()
                    =~= before.0);
            }
            let ts = match &lines[i].timestamp {
                Some(text) => reader.parse(text.as_str(), year),
                None => None,
            };
            let resolved = match ts {
                Some(t) => Some(t),
                None => last_ts,
            };
            match ts {
                Some(t) => {
                    self.min_ts = match self.min_ts {
                        None => Some(t),
                        Some(current) => if t.before(current) {
                            Some(t)
                        } else {
                            Some(current)
                        },
                    };
                    self.max_ts = match self.max_ts {
                        None => Some(t),
                        Some(current) => if current.before(t) {
                            Some(t)
                        } else {
                            Some(current)
                        },
                    };
                },
                None => {},
            }
            if resolved.is_some() {
                last_ts = resolved;
            }
            proof {
                assert(old(self).timestamps@ + filled_before.push(resolved) =~= (old(
                    self,
                ).timestamps@ + filled_before).push(resolved));
                if filled_before.len() == 0 {
                    assert(old(self).timestamps@ + filled_before =~= old(self).timestamps@);
                } else {
                    assert((old(self).timestamps@ + filled_before).last() == filled_before.last());
                }
            }
            self.timestamps.push(resolved);
            i += 1;
        }
        self.last_format = reader.last_format;
        proof {
            assert(texts.subrange(0, lines.len() as int) =~= texts);
            lemma_filled_len(readings(texts, old(self).last_format, year).0, seed);
            lemma_readings_len(texts, old(self).last_format, year);
        }
    }

    /// Extends the index with new records, timestamps without a year being
    /// read as of the current local year.
    pub fn append(&mut self, lines: &[ParsedLine])
        ensures
            exists|year: i32| final(self).extends(old(self), records_of(lines@), year),
            old(self).wf() ==> final(self).wf(),
            final(self).resolved().len() == old(self).resolved().len() + lines.len(),
    {
        let year = current_year();
        self.append_in(lines, year);
    }
}

/// Forward fill keeps the length.
pub proof fn lemma_filled_len(direct: Seq<Option<Instant>>, seed: Option<Instant>)
    ensures
        filled(direct, seed).len() == direct.len(),
    decreases direct.len(),
{
    if direct.len() > 0 {
        lemma_filled_len(direct.drop_last(), seed);
    }
}

/// There is one reading for each record.
pub proof fn lemma_readings_len(texts: Seq<Option<Seq<char>>>, last: Option<usize>, year: i32)
    ensures
        readings(texts, last, year).0.len() == texts.len(),
    decreases texts.len(),
{
    if texts.len() > 0 {
        lemma_readings_len(texts.drop_last(), last, year);
    }
}

/// Builds the index of `lines`, timestamps without a year being read as of
/// `year`.
pub fn build_time_index_in(lines: &[ParsedLine], year: i32) -> (r: TimeIndex)
    ensures
        r.indexes(records_of(lines@), year),
        r.wf(),
        r.resolved().len() == lines.len(),
{
    let mut index = TimeIndex::new();
    index.append_in(lines, year);
    proof {
        let read = readings(timestamp_texts(records_of(lines@)), None, year);
        assert(Seq::<Option<Instant>>::empty() + filled(read.0, None) =~= filled(read.0, None));
    }
    index
}

/// Builds the index of `lines`: reads the timestamp of each, keeps the
/// earliest and the latest of those read, and fills the instants forward.
/// Timestamps without a year are read as of the current local year.
pub fn build_time_index(lines: &[ParsedLine]) -> (r: TimeIndex)
    ensures
        exists|year: i32| r.indexes(records_of(lines@), year),
        r.wf(),
        r.resolved().len() == lines.len(),
{
    let year = current_year();
    build_time_index_in(lines, year)
}

/// The most buckets that a histogram can have: no more counters fit in
/// memory.
pub const MAX_BUCKETS: u64 = 0x1000_0000_0000_0000;

/// The number of places that hold an instant.
pub open spec fn resolved_count(resolved: Seq<Option<Instant>>) -> nat
    decreases resolved.len(),
{
    if resolved.len() == 0 {
        0
    } else {
        resolved_count(resolved.drop_last()) + if resolved.last() is Some {
            1nat
        } else {
            0nat
        }
    }
}

/// The sum of the counts.
pub open spec fn total_of(counts: Seq<u64>) -> nat
    decreases counts.len(),
{
    if counts.len() == 0 {
        0
    } else {
        total_of(counts.drop_last()) + counts.last() as nat
    }
}

/// The duration of a bucket, in seconds: the time from the earliest to the
/// latest instant, at least one second, divided by the number of buckets
/// and rounded up.
pub open spec fn bucket_span(min: Instant, max: Instant, num_buckets: int) -> int {
    let elapsed = max.seconds_from(min);
    let total = if elapsed < 1 {
        1
    } else {
        elapsed
    };
    (total + num_buckets - 1) / num_buckets
}

/// The bucket of an instant: the whole buckets that fit between the
/// earliest instant and it, and the last bucket for what lies beyond.
pub open spec fn bucket_of(t: Instant, min: Instant, span: int, num_buckets: int) -> int {
    let elapsed = t.seconds_from(min);
    let offset = if elapsed < 0 {
        0
    } else {
        elapsed
    };
    if offset / span >= num_buckets {
        num_buckets - 1
    } else {
        offset / span
    }
}

/// The number of instants of the sequence that fall in `bucket`.
pub open spec fn bucket_count(
    resolved: Seq<Option<Instant>>,
    min: Instant,
    span: int,
    num_buckets: int,
    bucket: int,
) -> nat
    decreases resolved.len(),
{
    if resolved.len() == 0 {
        0
    } else {
        bucket_count(resolved.drop_last(), min, span, num_buckets, bucket) + match resolved.last() {
            Some(t) => if bucket_of(t, min, span, num_buckets) == bucket {
                1nat
            } else {
                0nat
            },
            None => 0nat,
        }
    }
}

impl SparklineData {
    /// Whether the histogram is whole: as many counts and starts as buckets,
    /// a duration of at least a second, and starts to which the duration can
    /// be added.
    pub open spec fn wf(&self) -> bool {
        &&& self.buckets.len() == self.num_buckets
        &&& self.bucket_starts.len() == self.num_buckets
        &&& self.bucket_duration_secs >= 1
        &&& forall|i: int|
            0 <= i < self.bucket_starts.len() ==> (#[trigger] self.bucket_starts[i]).secs
                + self.bucket_duration_secs <= i64::MAX
    }

    /// Whether the histogram is whole.
    pub fn is_well_formed(&self) -> (r: bool)
        ensures
            r == self.wf(),
    {
        if self.buckets.len() != self.num_buckets || self.bucket_starts.len() != self.num_buckets
            || self.bucket_duration_secs < 1 {
            return false;
        }
        let mut i: usize = 0;
        while i < self.bucket_starts.len()
            invariant
                i <= self.bucket_starts.len(),
                self.bucket_duration_secs >= 1,
                forall|k: int|
                    0 <= k < i ==> (#[trigger] self.bucket_starts[k]).secs
                        + self.bucket_duration_secs <= i64::MAX,
            decreases self.bucket_starts.len() - i,
        {
            if self.bucket_starts[i].secs > i64::MAX - self.bucket_duration_secs {
                return false;
            }
            i += 1;
        }
        true
    }

    /// Whether the histogram is that of `index` in `num_buckets` buckets.
    pub open spec fn is_histogram_of(&self, index: &TimeIndex, num_buckets: int) -> bool {
        let min = index.min_ts->0;
        let span = bucket_span(min, index.max_ts->0, num_buckets);
        &&& self.num_buckets == num_buckets
        &&& self.bucket_duration_secs == span
        &&& self.buckets.len() == num_buckets
        &&& self.bucket_starts.len() == num_buckets
        &&& forall|i: int|
            0 <= i < num_buckets ==> #[trigger] self.bucket_starts[i] == min.later_by(span * i)
        &&& forall|i: int|
            0 <= i < num_buckets ==> (#[trigger] self.buckets[i]) as nat == bucket_count(
                index.resolved(),
                min,
                span,
                num_buckets,
                i,
            )
    }
}

/// A count changed at one place changes the sum by as much.
pub proof fn lemma_total_update(counts: Seq<u64>, at: int, value: u64)
    requires
        0 <= at < counts.len(),
    ensures
        total_of(counts.update(at, value)) == total_of(counts) - counts[at] + value,
        counts[at] <= total_of(counts),
    decreases counts.len(),
{
    let changed = counts.update(at, value);
    if at == counts.len() - 1 {
        assert(changed.drop_last() =~= counts.drop_last());
    } else {
        assert(changed.drop_last() =~= counts.drop_last().update(at, value));
        lemma_total_update(counts.drop_last(), at, value);
    }
}

/// Counts that are all zero sum to zero.
pub proof fn lemma_total_zero(counts: Seq<u64>)
    requires
        forall|i: int| 0 <= i < counts.len() ==> counts[i] == 0,
    ensures
        total_of(counts) == 0,
    decreases counts.len(),
{
    if counts.len() > 0 {
        lemma_total_zero(counts.drop_last());
    }
}

/// No more places hold an instant than there are places.
pub proof fn lemma_resolved_count_bound(resolved: Seq<Option<Instant>>)
    ensures
        resolved_count(resolved) <= resolved.len(),
    decreases resolved.len(),
{
    if resolved.len() > 0 {
        lemma_resolved_count_bound(resolved.drop_last());
    }
}

/// The bucket duration times the number of buckets covers the whole time
/// and overshoots it by less than one second for each bucket.
pub proof fn lemma_bucket_span(total: int, num_buckets: int)
    requires
        total >= 1,
        num_buckets >= 1,
    ensures
        (total + num_buckets - 1) / num_buckets >= 1,
        ((total + num_buckets - 1) / num_buckets) * num_buckets <= total + num_buckets - 1,
        ((total + num_buckets - 1) / num_buckets) * num_buckets >= total,
{
    let x = total + num_buckets - 1;
    vstd::arithmetic::div_mod::lemma_fundamental_div_mod(x, num_buckets);
    vstd::arithmetic::div_mod::lemma_mod_bound(x, num_buckets);
    let q = x / num_buckets;
    assert(q * num_buckets == num_buckets * q) by (nonlinear_arith);
    assert(q >= 1) by (nonlinear_arith)
        requires
            num_buckets * q + x % num_buckets == x,
            0 <= x % num_buckets < num_buckets,
            x >= num_buckets,
    ;
}

/// Builds the histogram of the index in `num_buckets` buckets of equal
/// duration, starting at the earliest instant. There is none where no record
/// wrote a timestamp, nor for no buckets. Records without an instant are not
/// counted, so the counts sum to the number of records that have one.
pub fn compute_sparkline(index: &TimeIndex, num_buckets: usize) -> (r: Option<SparklineData>)
    requires
        index.wf(),
        num_buckets <= MAX_BUCKETS,
    ensures
        r is Some <==> index.min_ts is Some && index.max_ts is Some && num_buckets > 0,
        r matches Some(s) ==> s.is_histogram_of(index, num_buckets as int) && s.wf() && total_of(
            s.buckets@,
        ) == resolved_count(index.resolved()),
{
    let min_ts = match index.min_ts {
        Some(t) => t,
        None => { return None; },
    };
    let max_ts = match index.max_ts {
        Some(t) => t,
        None => { return None; },
    };
    if num_buckets == 0 {
        return None;
    }
    let elapsed = max_ts.seconds_since(min_ts);
    let total: i64 = if elapsed < 1 {
        1
    } else {
        elapsed
    };
    let n: i64 = num_buckets as i64;
    let span: i64 = (total + n - 1) / n;
    proof {
        lemma_bucket_span(total as int, n as int);
    }
    let mut buckets: Vec<u64> = Vec::new();
    let mut bucket_starts: Vec<Instant> = Vec::new();
    let mut i: usize = 0;
    while i < num_buckets
        invariant
            i <= num_buckets <= MAX_BUCKETS,
            n == num_buckets,
            min_ts.is_calendar(),
            1 <= total <= 2 * CALENDAR_LIMIT,
            span >= 1,
            span * n <= total + n - 1,
            buckets.len() == i,
            bucket_starts.len() == i,
            forall|k: int| 0 <= k < i ==> buckets[k] == 0,
            forall|k: int| 0 <= k < i ==> #[trigger] bucket_starts[k] == min_ts.later_by(span * k),
            forall|k: int|
                0 <= k < i ==> (#[trigger] bucket_starts[k]).secs + span <= i64::MAX,
        decreases num_buckets - i,
    {
        let k: i64 = i as i64;
        proof {
            assert(0 <= span * k && span * k + span <= span * n) by (nonlinear_arith)
                requires
                    0 <= k < n,
                    span >= 1,
            ;
        }
        let start = min_ts.plus_seconds(span * k);
        buckets.push(0);
        bucket_starts.push(start);
        i += 1;
    }
    let mut j: usize = 0;
    proof {
        lemma_total_zero(buckets@);
        assert(index.resolved().subrange(0, 0) =~= Seq::empty());
    }
    while j < index.timestamps.len()
        invariant
            j <= index.timestamps.len(),
            index.wf(),
            min_ts.is_calendar(),
            span >= 1,
            0 < num_buckets <= MAX_BUCKETS,
            buckets.len() == num_buckets,
            total_of(buckets@) == resolved_count(index.resolved().subrange(0, j as int)),
            forall|b: int|
                0 <= b < num_buckets ==> (#[trigger] buckets[b]) as nat == bucket_count(
                    index.resolved().subrange(0, j as int),
                    min_ts,
                    span as int,
                    num_buckets as int,
                    b,
                ),
        decreases index.timestamps.len() - j,
    {
        let ghost before = index.resolved().subrange(0, j as int);
        let ghost upto = index.resolved().subrange(0, j + 1);
        proof {
            assert(upto.drop_last() =~= before);
            assert(upto.last() == index.timestamps[j as int]);
            lemma_resolved_count_bound(before);
        }
        match index.timestamps[j] {
            Some(t) => {
                let elapsed = t.seconds_since(min_ts);
                let offset: i64 = if elapsed < 0 {
                    0
                } else {
                    elapsed
                };
                let q: i64 = offset / span;
                let bucket: usize = if q >= num_buckets as i64 {
                    num_buckets - 1
                } else {
                    q as usize
                };
                proof {
                    assert(bucket == bucket_of(t, min_ts, span as int, num_buckets as int));
                    lemma_total_update(buckets@, bucket as int, (buckets[bucket as int] + 1) as u64);
                }
                let count = buckets[bucket];
                buckets.set(bucket, count + 1);
            },
            None => {},
        }
        j += 1;
    }
    proof {
        assert(index.resolved().subrange(0, index.timestamps.len() as int) =~= index.resolved());
    }
    Some(SparklineData { buckets, bucket_starts, bucket_duration_secs: span, num_buckets })
}

/// The counts of a histogram sum to the number of records that have an
/// instant: no record falls in two buckets, and none with an instant in
/// none.
pub proof fn lemma_sparkline_conservation(
    resolved: Seq<Option<Instant>>,
    min: Instant,
    span: int,
    num_buckets: int,
    counts: Seq<u64>,
)
    requires
        span >= 1,
        num_buckets >= 1,
        counts.len() == num_buckets,
        forall|b: int|
            0 <= b < num_buckets ==> (#[trigger] counts[b]) as nat == bucket_count(
                resolved,
                min,
                span,
                num_buckets,
                b,
            ),
    ensures
        total_of(counts) == resolved_count(resolved),
{
    lemma_bucket_counts_sum(resolved, min, span, num_buckets, num_buckets);
    lemma_total_is_sum(resolved, min, span, num_buckets, counts, num_buckets);
}

/// The counts of the histogram of an index, of however many buckets, sum to
/// the number of records of the index that have an instant: a record that
/// took its instant from the one before it is counted, a record without an
/// instant is not.
pub proof fn lemma_histogram_conserves(s: SparklineData, index: &TimeIndex, num_buckets: int)
    requires
        num_buckets >= 1,
        s.is_histogram_of(index, num_buckets),
    ensures
        total_of(s.buckets@) == resolved_count(index.resolved()),
{
    let min = index.min_ts->0;
    let elapsed = index.max_ts->0.seconds_from(min);
    let total = if elapsed < 1 {
        1
    } else {
        elapsed
    };
    lemma_bucket_span(total, num_buckets);
    lemma_sparkline_conservation(
        index.resolved(),
        min,
        bucket_span(min, index.max_ts->0, num_buckets),
        num_buckets,
        s.buckets@,
    );
}

/// The number of instants of the sequence that fall in one of the first
/// `upto` buckets.
pub open spec fn counted_below(
    resolved: Seq<Option<Instant>>,
    min: Instant,
    span: int,
    num_buckets: int,
    upto: int,
) -> nat
    decreases upto,
{
    if upto <= 0 {
        0
    } else {
        counted_below(resolved, min, span, num_buckets, upto - 1) + bucket_count(
            resolved,
            min,
            span,
            num_buckets,
            upto - 1,
        )
    }
}

/// Every instant falls in one of the buckets.
pub proof fn lemma_bucket_in_range(t: Instant, min: Instant, span: int, num_buckets: int)
    requires
        span >= 1,
        num_buckets >= 1,
    ensures
        0 <= bucket_of(t, min, span, num_buckets) < num_buckets,
{
    let elapsed = t.seconds_from(min);
    let offset = if elapsed < 0 {
        0
    } else {
        elapsed
    };
    vstd::arithmetic::div_mod::lemma_div_pos_is_pos(offset, span);
}

/// One instant is counted once among the first `upto` buckets where its
/// bucket is among them, and not at all where it is not.
pub proof fn lemma_counted_below_push(
    resolved: Seq<Option<Instant>>,
    min: Instant,
    span: int,
    num_buckets: int,
    upto: int,
)
    requires
        resolved.len() > 0,
        0 <= upto,
    ensures
        counted_below(resolved, min, span, num_buckets, upto) == counted_below(
            resolved.drop_last(),
            min,
            span,
            num_buckets,
            upto,
        ) + match resolved.last() {
            Some(t) => if 0 <= bucket_of(t, min, span, num_buckets) < upto {
                1nat
            } else {
                0nat
            },
            None => 0nat,
        },
    decreases upto,
{
    if upto > 0 {
        lemma_counted_below_push(resolved, min, span, num_buckets, upto - 1);
    }
}

/// The counts of all the buckets sum to the number of instants.
pub proof fn lemma_bucket_counts_sum(
    resolved: Seq<Option<Instant>>,
    min: Instant,
    span: int,
    num_buckets: int,
    upto: int,
)
    requires
        span >= 1,
        num_buckets >= 1,
        upto == num_buckets,
    ensures
        counted_below(resolved, min, span, num_buckets, upto) == resolved_count(resolved),
    decreases resolved.len(),
{
    if resolved.len() == 0 {
        assert(resolved =~= Seq::empty());
        lemma_counted_below_empty(min, span, num_buckets, upto);
    } else {
        lemma_bucket_counts_sum(resolved.drop_last(), min, span, num_buckets, upto);
        lemma_counted_below_push(resolved, min, span, num_buckets, upto);
        match resolved.last() {
            Some(t) => {
                lemma_bucket_in_range(t, min, span, num_buckets);
            },
            None => {},
        }
    }
}

/// Nothing is counted where there are no instants.
pub proof fn lemma_counted_below_empty(min: Instant, span: int, num_buckets: int, upto: int)
    ensures
        counted_below(Seq::empty(), min, span, num_buckets, upto) == 0,
    decreases upto,
{
    if upto > 0 {
        lemma_counted_below_empty(min, span, num_buckets, upto - 1);
    }
}

/// The sum of the first `upto` counts is the number of instants in the
/// first `upto` buckets.
pub proof fn lemma_total_is_sum(
    resolved: Seq<Option<Instant>>,
    min: Instant,
    span: int,
    num_buckets: int,
    counts: Seq<u64>,
    upto: int,
)
    requires
        0 <= upto <= counts.len(),
        counts.len() == num_buckets,
        forall|b: int|
            0 <= b < num_buckets ==> (#[trigger] counts[b]) as nat == bucket_count(
                resolved,
                min,
                span,
                num_buckets,
                b,
            ),
    ensures
        total_of(counts.subrange(0, upto)) == counted_below(resolved, min, span, num_buckets, upto),
        upto == counts.len() ==> total_of(counts) == counted_below(
            resolved,
            min,
            span,
            num_buckets,
            upto,
        ),
    decreases upto,
{
    if upto > 0 {
        lemma_total_is_sum(resolved, min, span, num_buckets, counts, upto - 1);
        assert(counts.subrange(0, upto).drop_last() =~= counts.subrange(0, upto - 1));
        assert(counts.subrange(0, upto).last() == counts[upto - 1]);
    }
    if upto == counts.len() {
        assert(counts.subrange(0, upto) =~= counts);
    }
}

/// The range of time that the buckets `start` to `end` cover: from the start
/// of the first to the end of the last.
pub open spec fn range_of_buckets(sparkline: &SparklineData, start: int, end: int) -> TimeRange {
    let last = if end >= sparkline.num_buckets {
        sparkline.num_buckets - 1
    } else {
        end
    };
    TimeRange {
        start: sparkline.bucket_starts[start],
        end: sparkline.bucket_starts[last].later_by(sparkline.bucket_duration_secs as int),
    }
}

/// The range of time that the buckets `start` to `end` cover. There is none
/// where `start` lies after `end` or is no bucket; an `end` beyond the last
/// bucket stands for the last bucket.
pub fn bucket_range_to_time_range(sparkline: &SparklineData, start: usize, end: usize) -> (r:
    Option<TimeRange>)
    requires
        sparkline.wf(),
    ensures
        r == if start > end || start >= sparkline.num_buckets {
            None
        } else {
            Some(range_of_buckets(sparkline, start as int, end as int))
        },
{
    if start > end || start >= sparkline.num_buckets {
        return None;
    }
    let last = if end >= sparkline.num_buckets {
        sparkline.num_buckets - 1
    } else {
        end
    };
    let start_time = sparkline.bucket_starts[start];
    let end_time = sparkline.bucket_starts[last].plus_seconds(sparkline.bucket_duration_secs);
    Some(TimeRange { start: start_time, end: end_time })
}

impl TimeRange {
    /// Whether the instant lies in the range, the ends included.
    pub open spec fn holds(&self, t: Instant) -> bool {
        self.start.is_at_or_before(t) && t.is_at_or_before(self.end)
    }

    /// Whether the instant lies in the range, the ends included.
    pub fn contains(&self, t: Instant) -> (r: bool)
        ensures
            r == self.holds(t),
    {
        self.start.at_or_before(t) && t.at_or_before(self.end)
    }
}

/// Whether the record at `i` has an instant that lies in the range.
pub open spec fn in_time_range(resolved: Seq<Option<Instant>>, range: TimeRange, i: usize) -> bool {
    i < resolved.len() && (resolved[i as int] matches Some(t) && range.holds(t))
}

/// The test that [`filter_by_time_range`] applies to each candidate.
pub open spec fn time_test(resolved: Seq<Option<Instant>>, range: TimeRange) -> spec_fn(
    usize,
) -> bool {
    |i: usize| in_time_range(resolved, range, i)
}

/// Keeps the candidates whose record has an instant in the range, the ends
/// included, in their order. Candidates without an instant are dropped.
pub fn filter_by_time_range(index: &TimeIndex, range: &TimeRange, indices: &[usize]) -> (r: Vec<
    usize,
>)
    ensures
        r@ == indices@.filter(time_test(index.resolved(), *range)),
{
    let mut out: Vec<usize> = Vec::new();
    let mut k: usize = 0;
    let ghost test = time_test(index.resolved(), *range);
    proof {
        reveal(Seq::filter);
        assert(indices@.subrange(0, 0) =~= Seq::empty());
    }
    while k < indices.len()
        invariant
            k <= indices.len(),
            test == time_test(index.resolved(), *range),
            out@ == indices@.subrange(0, k as int).filter(test),
        decreases indices.len() - k,
    {
        let i = indices[k];
        proof {
            reveal(Seq::filter);
            let upto = indices@.subrange(0, k + 1);
            assert(upto.drop_last() =~= indices@.subrange(0, k as int));
            assert(upto.last() == i);
        }
        let keep = match index.timestamp_at(i) {
            Some(t) => range.contains(t),
            None => false,
        };
        if keep {
            out.push(i);
        }
        k += 1;
    }
    proof {
        assert(indices@.subrange(0, indices.len() as int) =~= indices@);
    }
    out
}

/// Whether two instants lie on different days of the calendar.
pub fn is_multi_day(min_ts: Instant, max_ts: Instant) -> (r: bool)
    ensures
        r == (min_ts.day() != max_ts.day()),
{
    min_ts.day_number() != max_ts.day_number()
}

/// How `DateTime::format` writes an instant under a format.
pub uninterp spec fn formatted(t: Instant, format: Seq<char>) -> Seq<char>;

/// `DateTime::from_timestamp` and `NaiveDateTime::format`: the instant
/// written under the format, and nothing for an instant outside the
/// calendar.
#[verifier::external_body]
pub(crate) fn format_instant(t: Instant, format: &str) -> (r: String)
    requires
        format@ == "%H:%M"@ || format@ == "%m-%d %H:%M"@,
    ensures
        r@ == formatted(t, format@),
{
    chrono::DateTime::from_timestamp(t.secs, t.nanos).map(
        |d| d.naive_utc().format(format).to_string(),
    ).unwrap_or_default()
}

/// The label of an instant under the histogram: hour and minute, with month
/// and day before them where the histogram spans several days.
pub fn format_sparkline_time(dt: Instant, multi_day: bool) -> (r: String)
    ensures
        r@ == formatted(
            dt,
            if multi_day {
                "%m-%d %H:%M"@
            } else {
                "%H:%M"@
            },
        ),
{
    if multi_day {
        format_instant(dt, "%m-%d %H:%M")
    } else {
        format_instant(dt, "%H:%M")
    }
}

/// Whether the instants of the sequence never go back in time.
pub open spec fn non_decreasing(resolved: Seq<Option<Instant>>) -> bool {
    forall|i: int, j: int|
        0 <= i < j < resolved.len() && (#[trigger] resolved[i]) is Some && (
        #[trigger] resolved[j]) is Some ==> resolved[i]->0.is_at_or_before(resolved[j]->0)
}

/// The nearest place at or before `i` that has an instant of its own; -1
/// where there is none.
pub open spec fn nearest_resolved(direct: Seq<Option<Instant>>, i: int) -> int
    decreases i + 1,
{
    if i < 0 || i >= direct.len() {
        -1
    } else if direct[i] is Some {
        i
    } else {
        nearest_resolved(direct, i - 1)
    }
}

/// Forward fill of a head of the sequence is the head of the forward fill.
pub proof fn lemma_filled_prefix(direct: Seq<Option<Instant>>, seed: Option<Instant>, n: int)
    requires
        0 <= n <= direct.len(),
    ensures
        filled(direct.subrange(0, n), seed) == filled(direct, seed).subrange(0, n),
    decreases direct.len(),
{
    lemma_filled_len(direct, seed);
    if n == direct.len() {
        assert(direct.subrange(0, n) =~= direct);
        assert(filled(direct, seed).subrange(0, n) =~= filled(direct, seed));
    } else {
        lemma_filled_prefix(direct.drop_last(), seed, n);
        lemma_filled_len(direct.drop_last(), seed);
        assert(direct.drop_last().subrange(0, n) =~= direct.subrange(0, n));
        assert(filled(direct, seed).subrange(0, n) =~= filled(direct.drop_last(), seed).subrange(
            0,
            n,
        ));
    }
}

/// What forward fill puts at a place: the instant of the place itself, else
/// what it put at the place before, else the seed.
pub proof fn lemma_filled_at(direct: Seq<Option<Instant>>, seed: Option<Instant>, i: int)
    requires
        0 <= i < direct.len(),
    ensures
        filled(direct, seed).len() == direct.len(),
        filled(direct, seed)[i] == match direct[i] {
            Some(t) => Some(t),
            None => if i == 0 {
                seed
            } else {
                filled(direct, seed)[i - 1]
            },
        },
{
    lemma_filled_len(direct, seed);
    let head = direct.subrange(0, i + 1);
    lemma_filled_prefix(direct, seed, i + 1);
    lemma_filled_prefix(direct, seed, i);
    lemma_filled_len(head, seed);
    assert(head.drop_last() =~= direct.subrange(0, i));
    lemma_filled_len(head.drop_last(), seed);
    assert(filled(head, seed).last() == filled(direct, seed)[i]);
    if i > 0 {
        assert(filled(head.drop_last(), seed).last() == filled(direct, seed)[i - 1]);
    }
}

/// A record without an instant of its own has exactly the instant of the
/// nearest record before it that has one; where there is none it has the
/// seed. A record with an instant of its own keeps it.
pub proof fn lemma_filled_is_nearest(direct: Seq<Option<Instant>>, seed: Option<Instant>, i: int)
    requires
        0 <= i < direct.len(),
    ensures
        -1 <= nearest_resolved(direct, i) <= i,
        nearest_resolved(direct, i) >= 0 ==> direct[nearest_resolved(direct, i)] is Some,
        filled(direct, seed).len() == direct.len(),
        filled(direct, seed)[i] == if nearest_resolved(direct, i) >= 0 {
            direct[nearest_resolved(direct, i)]
        } else {
            seed
        },
        forall|k: int| nearest_resolved(direct, i) < k <= i ==> direct[k] is None,
    decreases i,
{
    lemma_filled_at(direct, seed, i);
    if direct[i] is None && i > 0 {
        lemma_filled_is_nearest(direct, seed, i - 1);
    }
}

/// The nearest place with an instant does not go back as the place moves
/// on.
pub proof fn lemma_nearest_monotone(direct: Seq<Option<Instant>>, i: int, j: int)
    requires
        0 <= i <= j < direct.len(),
    ensures
        nearest_resolved(direct, i) <= nearest_resolved(direct, j),
    decreases j - i,
{
    if i < j {
        lemma_nearest_monotone(direct, i, j - 1);
        lemma_filled_is_nearest(direct, None, j - 1);
    }
}

/// Forward fill keeps the order: where the instants that the records wrote
/// themselves never go back in time, and none lies before the seed, the
/// filled instants never go back in time either.
pub proof fn lemma_fill_non_decreasing(direct: Seq<Option<Instant>>, seed: Option<Instant>)
    requires
        non_decreasing(direct),
        seed matches Some(s) ==> forall|k: int|
            0 <= k < direct.len() ==> ((#[trigger] direct[k]) matches Some(t)
                ==> s.is_at_or_before(t)),
    ensures
        non_decreasing(filled(direct, seed)),
{
    let out = filled(direct, seed);
    lemma_filled_len(direct, seed);
    assert forall|i: int, j: int|
        0 <= i < j < out.len() && (#[trigger] out[i]) is Some && (#[trigger] out[j]) is Some implies out[i]->0.is_at_or_before(
        out[j]->0,
    ) by {
        lemma_filled_is_nearest(direct, seed, i);
        lemma_filled_is_nearest(direct, seed, j);
        lemma_nearest_monotone(direct, i, j);
        let ni = nearest_resolved(direct, i);
        let nj = nearest_resolved(direct, j);
        if ni >= 0 && ni < nj {
            assert(direct[ni] is Some && direct[nj] is Some);
        }
    }
}

/// In an index built from records whose own instants never go back in time,
/// the instants of the records never go back in time.
pub proof fn lemma_index_non_decreasing(index: &TimeIndex, records: Seq<Record>, year: i32)
    requires
        index.indexes(records, year),
        non_decreasing(readings(timestamp_texts(records), None, year).0),
    ensures
        non_decreasing(index.resolved()),
{
    lemma_fill_non_decreasing(readings(timestamp_texts(records), None, year).0, None);
}

} // verus!
