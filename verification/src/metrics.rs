//! Time-windowed store of request records, with aggregation helpers.
//!
//! Instants are plain numbers: `mono_ts` counts milliseconds on a monotonic
//! clock, `wall_ts` milliseconds since the Unix epoch, and durations are in
//! milliseconds. The caller reads the clocks and passes `now` in.

use std::collections::HashMap;
use vstd::prelude::*;
use vstd::relations::{sorted_by, total_ordering};
use vstd::seq_lib::{lemma_sorted_unique, to_multiset_build, to_multiset_insert};
use vstd::string::StringExecFns;

use crate::json::{quote, quoted_text};
use crate::text::{decimal, decimal_text};
use crate::timefmt::{format_rfc3339, rfc3339_text};

verus! {

broadcast use vstd::std_specs::hash::group_hash_axioms;

/// How the route of a request was chosen.
#[derive(Clone, Copy, Debug, PartialEq, Eq, Structural)]
pub enum RoutingMethod {
    Default,
    Pattern,
    Auto,
}

/// One proxied request.
#[derive(Debug)]
pub struct RequestRecord {
    pub id: u64,
    pub mono_ts: u64,
    pub wall_ts: i64,
    pub model: String,
    pub provider: String,
    pub routing_method: RoutingMethod,
    pub status: u16,
    pub duration: u64,
    pub input_tokens: u64,
    pub output_tokens: u64,
    pub error_body: Option<String>,
}

impl Clone for RequestRecord {
    fn clone(&self) -> (copy: Self)
        ensures
            copy == *self,
    {
        let error_body = match &self.error_body {
            Some(text) => Some(text.clone()),
            None => None,
        };
        RequestRecord {
            id: self.id,
            mono_ts: self.mono_ts,
            wall_ts: self.wall_ts,
            model: self.model.clone(),
            provider: self.provider.clone(),
            routing_method: self.routing_method,
            status: self.status,
            duration: self.duration,
            input_tokens: self.input_tokens,
            output_tokens: self.output_tokens,
            error_body,
        }
    }
}

impl RequestRecord {
    /// This record under another identifier.
    pub open spec fn with_id(self, id: u64) -> RequestRecord {
        RequestRecord { id, ..self }
    }

    /// This record after its stream has ended.
    pub open spec fn finalized(self, output_tokens: u64, duration: u64) -> RequestRecord {
        RequestRecord { output_tokens, duration, ..self }
    }
}

/// A record accepted at `mono_ts` is still inside the window at `now`.
pub open spec fn is_live(now: u64, window: u64, mono_ts: u64) -> bool {
    (now as int) - (mono_ts as int) < (window as int)
}

/// The records of `records` that are live at `now`, in their order.
pub open spec fn live_records(records: Seq<RequestRecord>, now: u64, window: u64) -> Seq<
    RequestRecord,
> {
    records.filter(|r: RequestRecord| is_live(now, window, r.mono_ts))
}

/// The position of the record with identifier `id`, if there is one.
pub open spec fn position_of(records: Seq<RequestRecord>, id: u64) -> Option<int> {
    if exists|i: int| 0 <= i < records.len() && records[i].id == id {
        Some(choose|i: int| 0 <= i < records.len() && records[i].id == id)
    } else {
        None
    }
}

/// Identifiers grow strictly along the sequence.
pub open spec fn ids_increase(records: Seq<RequestRecord>) -> bool {
    forall|i: int, j: int| 0 <= i < j < records.len() ==> records[i].id < records[j].id
}

/// The JSON text of an optional error marker.
pub open spec fn error_text(error: Option<String>) -> Seq<char> {
    match error {
        Some(marker) => quoted_text(marker@),
        None => "null"@,
    }
}

/// The log line of a record: one JSON object with the eight logged fields.
/// There is none where the record's wall-clock instant has no RFC 3339 text.
pub open spec fn log_line_text(r: RequestRecord) -> Option<Seq<char>> {
    match rfc3339_text(r.wall_ts) {
        None => None,
        Some(stamp) => Some(
            "{\"timestamp\":"@ + quoted_text(stamp) + ",\"model\":"@ + quoted_text(r.model@)
                + ",\"provider\":"@ + quoted_text(r.provider@) + ",\"status\":"@ + decimal_text(
                r.status as nat,
            ) + ",\"duration_ms\":"@ + decimal_text(r.duration as nat) + ",\"input_tokens\":"@
                + decimal_text(r.input_tokens as nat) + ",\"output_tokens\":"@ + decimal_text(
                r.output_tokens as nat,
            ) + ",\"error\":"@ + error_text(r.error_body) + "}"@,
        ),
    }
}

/// Formats the log line of `record`.
pub fn log_line(record: &RequestRecord) -> (line: Option<String>)
    ensures
        line.is_some() == log_line_text(*record).is_some(),
        line.is_some() ==> line.unwrap()@ == log_line_text(*record).unwrap(),
{
    let stamp = match format_rfc3339(record.wall_ts) {
        Some(stamp) => stamp,
        None => {
            return None;
        },
    };
    let mut line = "{\"timestamp\":".to_owned();
    line.append(quote(stamp.as_str()).as_str());
    line.append(",\"model\":");
    line.append(quote(record.model.as_str()).as_str());
    line.append(",\"provider\":");
    line.append(quote(record.provider.as_str()).as_str());
    line.append(",\"status\":");
    line.append(decimal(record.status as u64).as_str());
    line.append(",\"duration_ms\":");
    line.append(decimal(record.duration).as_str());
    line.append(",\"input_tokens\":");
    line.append(decimal(record.input_tokens).as_str());
    line.append(",\"output_tokens\":");
    line.append(decimal(record.output_tokens).as_str());
    line.append(",\"error\":");
    match &record.error_body {
        Some(marker) => {
            line.append(quote(marker.as_str()).as_str());
        },
        None => {
            line.append("null");
        },
    }
    line.append("}");
    Some(line)
}

fn check_live(now: u64, window: u64, mono_ts: u64) -> (live: bool)
    ensures
        live == is_live(now, window, mono_ts),
{
    now < mono_ts || now - mono_ts < window
}

/// The records of the last window: in insertion order, found by
/// identifier through an index, each under an identifier of its own.
pub struct MetricsStore {
    records: Vec<RequestRecord>,
    id_index: HashMap<u64, usize>,
    window: u64,
    log_attached: bool,
    next_id: u64,
}

impl View for MetricsStore {
    type V = Seq<RequestRecord>;

    /// The stored records in insertion order.
    closed spec fn view(&self) -> Seq<RequestRecord> {
        self.records@
    }
}

impl MetricsStore {
    /// The identifier that the next inserted record gets.
    pub closed spec fn next_id(&self) -> u64 {
        self.next_id
    }

    /// The retention window in milliseconds.
    pub closed spec fn window(&self) -> u64 {
        self.window
    }

    /// Whether a metrics log is attached.
    pub closed spec fn logging(&self) -> bool {
        self.log_attached
    }

    spec fn index_matches(records: Seq<RequestRecord>, index: Map<u64, usize>) -> bool {
        &&& forall|i: int|
            0 <= i < records.len() ==> #[trigger] index.contains_key(records[i].id)
                && index[records[i].id] == i
        &&& forall|k: u64| #[trigger]
            index.contains_key(k) ==> index[k] < records.len() && records[index[k] as int].id == k
    }

    /// The store's invariant: identifiers are positive, below the counter and
    /// strictly increasing, and the index maps each to its position.
    pub closed spec fn wf(&self) -> bool {
        &&& self.next_id >= 1
        &&& forall|i: int|
            0 <= i < self.records@.len() ==> 1 <= (#[trigger] self.records@[i]).id < self.next_id
        &&& ids_increase(self.records@)
        &&& Self::index_matches(self.records@, self.id_index@)
    }

    /// An empty store without a log.
    pub fn new(window: u64) -> (store: Self)
        ensures
            store.wf(),
            store@ == Seq::<RequestRecord>::empty(),
            store.next_id() == 1,
            store.window() == window,
            !store.logging(),
    {
        MetricsStore {
            records: Vec::new(),
            id_index: HashMap::new(),
            window,
            log_attached: false,
            next_id: 1,
        }
    }

    /// An empty store whose finished records are mirrored to a log.
    pub fn with_logger(window: u64) -> (store: Self)
        ensures
            store.wf(),
            store@ == Seq::<RequestRecord>::empty(),
            store.next_id() == 1,
            store.window() == window,
            store.logging(),
    {
        MetricsStore {
            records: Vec::new(),
            id_index: HashMap::new(),
            window,
            log_attached: true,
            next_id: 1,
        }
    }

    /// The window in whole minutes.
    pub fn window_minutes(&self) -> (minutes: u64)
        ensures
            minutes == self.window() / 60_000,
    {
        self.window / 60_000
    }

    /// Whether a log is attached.
    pub fn is_logging(&self) -> (attached: bool)
        ensures
            attached == self.logging(),
    {
        self.log_attached
    }

    /// The identifier that the next inserted record gets.
    pub fn upcoming_id(&self) -> (id: u64)
        ensures
            id == self.next_id(),
    {
        self.next_id
    }

    /// How many records are stored, live or not.
    pub fn len(&self) -> (count: usize)
        ensures
            count == self@.len(),
    {
        self.records.len()
    }

    /// Whether another record can be inserted.
    pub fn has_room(&self) -> (room: bool)
        ensures
            room == (self.next_id() < u64::MAX),
    {
        self.next_id < u64::MAX
    }

    fn insert(&mut self, record: RequestRecord) -> (id: u64)
        requires
            old(self).wf(),
            old(self).next_id() < u64::MAX,
        ensures
            final(self).wf(),
            id == old(self).next_id(),
            final(self)@ == old(self)@.push(record.with_id(id)),
            final(self).next_id() == id + 1,
            final(self).window() == old(self).window(),
            final(self).logging() == old(self).logging(),
    {
        let id = self.next_id;
        let mut record = record;
        record.id = id;
        let position = self.records.len();
        self.records.push(record);
        self.id_index.insert(id, position);
        self.next_id = id + 1;
        id
    }

    /// Inserts a finished record under the next identifier and returns the
    /// line to append to the log, if a log is attached.
    pub fn record(&mut self, record: RequestRecord) -> (line: Option<String>)
        requires
            old(self).wf(),
            old(self).next_id() < u64::MAX,
        ensures
            final(self).wf(),
            final(self)@ == old(self)@.push(record.with_id(old(self).next_id())),
            final(self).next_id() == old(self).next_id() + 1,
            final(self).window() == old(self).window(),
            final(self).logging() == old(self).logging(),
            line.is_some() == (old(self).logging() && log_line_text(record).is_some()),
            line.is_some() ==> line.unwrap()@ == log_line_text(record).unwrap(),
    {
        let line = if self.log_attached {
            log_line(&record)
        } else {
            None
        };
        self.insert(record);
        line
    }

    /// Inserts a record whose stream is still running and returns its
    /// identifier. Nothing is logged until the record is finalized.
    pub fn record_pending(&mut self, record: RequestRecord) -> (id: u64)
        requires
            old(self).wf(),
            old(self).next_id() < u64::MAX,
        ensures
            final(self).wf(),
            id == old(self).next_id(),
            id >= 1,
            forall|i: int| 0 <= i < old(self)@.len() ==> old(self)@[i].id < id,
            final(self)@ == old(self)@.push(record.with_id(id)),
            final(self).next_id() == id + 1,
            final(self).window() == old(self).window(),
            final(self).logging() == old(self).logging(),
    {
        self.insert(record)
    }

    /// Sets `output_tokens` and `duration` of the record with identifier
    /// `id` and returns the line to append to the log, if a log is attached.
    /// An unknown identifier changes nothing.
    pub fn finalize_stream(&mut self, id: u64, output_tokens: u64, duration: u64) -> (line: Option<
        String,
    >)
        requires
            old(self).wf(),
        ensures
            final(self).wf(),
            final(self).next_id() == old(self).next_id(),
            final(self).window() == old(self).window(),
            final(self).logging() == old(self).logging(),
            match position_of(old(self)@, id) {
                Some(at) => {
                    let done = old(self)@[at].finalized(output_tokens, duration);
                    &&& final(self)@ == old(self)@.update(at, done)
                    &&& line.is_some() == (old(self).logging() && log_line_text(done).is_some())
                    &&& line.is_some() ==> line.unwrap()@ == log_line_text(done).unwrap()
                },
                None => final(self)@ == old(self)@ && line.is_none(),
            },
    {
        let found = match self.id_index.get(&id) {
            Some(position) => Some(*position),
            None => None,
        };
        match found {
            Some(position) => {
                proof {
                    let at = position as int;
                    assert(self.records@[at].id == id);
                    let chosen = position_of(self.records@, id).unwrap();
                    assert(chosen == at) by {
                        if chosen < at {
                            assert(self.records@[chosen].id < self.records@[at].id);
                        } else if at < chosen {
                            assert(self.records@[at].id < self.records@[chosen].id);
                        }
                    }
                }
                let mut done = self.records[position].clone();
                done.output_tokens = output_tokens;
                done.duration = duration;
                let line = if self.log_attached {
                    log_line(&done)
                } else {
                    None
                };
                let ghost before = self.records@;
                self.records[position] = done;
                proof {
                    assert(self.records@ == before.update(position as int, done));
                    assert forall|i: int| 0 <= i < self.records@.len() implies (
                    #[trigger] self.records@[i]).id == before[i].id by {}
                    assert(Self::index_matches(before, self.id_index@));
                    assert forall|i: int| 0 <= i < self.records@.len() implies (
                    #[trigger] self.id_index@.contains_key(self.records@[i].id))
                        && self.id_index@[self.records@[i].id] == i by {
                        assert(self.id_index@.contains_key(before[i].id));
                    }
                    assert forall|k: u64| #[trigger] self.id_index@.contains_key(k) implies
                        self.id_index@[k] < self.records@.len()
                        && self.records@[self.id_index@[k] as int].id == k by {
                        assert(before[self.id_index@[k] as int].id == k);
                    }
                    assert(Self::index_matches(self.records@, self.id_index@));
                    assert(ids_increase(self.records@)) by {
                        assert forall|i: int, j: int|
                            0 <= i < j < self.records@.len() implies self.records@[i].id
                            < self.records@[j].id by {
                            assert(before[i].id < before[j].id);
                        }
                    }
                    assert forall|i: int| 0 <= i < self.records@.len() implies 1 <= (
                    #[trigger] self.records@[i]).id < self.next_id by {
                        assert(1 <= before[i].id < self.next_id);
                    }
                }
                line
            },
            None => {
                proof {
                    if exists|i: int| 0 <= i < self.records@.len() && self.records@[i].id == id {
                        let i = choose|i: int| 0 <= i < self.records@.len() && self.records@[i].id == id;
                        assert(self.id_index@.contains_key(self.records@[i].id));
                    }
                }
                None
            },
        }
    }

    /// A copy of the records that are live at `now`, in insertion order.
    pub fn snapshot(&self, now: u64) -> (live: Vec<RequestRecord>)
        requires
            self.wf(),
        ensures
            live@ == live_records(self@, now, self.window()),
            forall|i: int| 0 <= i < live@.len() ==> is_live(now, self.window(), live@[i].mono_ts),
    {
        let live = live_copy(&self.records, now, self.window);
        live
    }

    /// Removes the records that are no longer live at `now` and rebuilds the
    /// index from those that stay.
    pub fn evict_expired(&mut self, now: u64)
        requires
            old(self).wf(),
        ensures
            final(self).wf(),
            final(self)@ == live_records(old(self)@, now, old(self).window()),
            final(self).next_id() == old(self).next_id(),
            final(self).window() == old(self).window(),
            final(self).logging() == old(self).logging(),
    {
        let kept = live_copy(&self.records, now, self.window);
        let mut index: HashMap<u64, usize> = HashMap::new();
        let mut at: usize = 0;
        proof {
            lemma_live_keeps_order(self.records@, now, self.window);
            lemma_live_members(self.records@, now, self.window);
        }
        while at < kept.len()
            invariant
                at <= kept.len(),
                ids_increase(kept@),
                Self::index_matches(kept@.take(at as int), index@),
            decreases kept.len() - at,
        {
            let id = kept[at].id;
            proof {
                assert(kept@.take(at + 1) =~= kept@.take(at as int).push(kept@[at as int]));
                assert(!index@.contains_key(id)) by {
                    if index@.contains_key(id) {
                        let before = index@[id] as int;
                        assert(kept@.take(at as int)[before].id == id);
                        assert(kept@[before].id < kept@[at as int].id);
                    }
                }
            }
            index.insert(id, at);
            at = at + 1;
        }
        proof {
            assert(kept@.take(kept@.len() as int) =~= kept@);
            assert forall|i: int| 0 <= i < kept@.len() implies 1 <= (#[trigger] kept@[i]).id
                < self.next_id by {
                assert(self.records@.contains(kept@[i]));
            }
        }
        self.records = kept;
        self.id_index = index;
    }
}

/// Filtering by liveness keeps identifiers strictly increasing.
pub proof fn lemma_live_keeps_order(records: Seq<RequestRecord>, now: u64, window: u64)
    requires
        ids_increase(records),
    ensures
        ids_increase(live_records(records, now, window)),
    decreases records.len(),
{
    reveal(Seq::filter);
    let live = |r: RequestRecord| is_live(now, window, r.mono_ts);
    if records.len() > 0 {
        let front = records.drop_last();
        lemma_live_keeps_order(front, now, window);
        let kept = front.filter(live);
        assert forall|k: int| 0 <= k < kept.len() implies (#[trigger] kept[k]).id
            < records.last().id by {
            assert(forall|i: int| 0 <= i < front.len() ==> front[i].id < records.last().id);
            lemma_live_bound(front, now, window, records.last().id);
        }
    }
}

proof fn lemma_live_bound(records: Seq<RequestRecord>, now: u64, window: u64, id: u64)
    requires
        forall|i: int| 0 <= i < records.len() ==> records[i].id < id,
    ensures
        forall|k: int|
            0 <= k < live_records(records, now, window).len() ==> (#[trigger] live_records(
                records,
                now,
                window,
            )[k]).id < id,
{
    lemma_live_members(records, now, window);
    assert forall|k: int| 0 <= k < live_records(records, now, window).len() implies (
    #[trigger] live_records(records, now, window)[k]).id < id by {
        let r = live_records(records, now, window)[k];
        assert(records.contains(r));
        let i = choose|i: int| 0 <= i < records.len() && records[i] == r;
        assert(records[i].id < id);
    }
}

/// Every live record is one of the records, and is live.
pub proof fn lemma_live_members(records: Seq<RequestRecord>, now: u64, window: u64)
    ensures
        forall|k: int|
            0 <= k < live_records(records, now, window).len() ==> records.contains(
                #[trigger] live_records(records, now, window)[k],
            ) && is_live(now, window, live_records(records, now, window)[k].mono_ts),
{
    let live = |r: RequestRecord| is_live(now, window, r.mono_ts);
    assert forall|k: int| 0 <= k < records.filter(live).len() implies records.contains(
        #[trigger] records.filter(live)[k],
    ) && is_live(now, window, records.filter(live)[k].mono_ts) by {
        let r = records.filter(live)[k];
        assert(records.filter(live).contains(r));
        records.lemma_filter_contains_rev(live, r);
        records.lemma_filter_pred(live, k);
    }
}

fn live_copy(records: &Vec<RequestRecord>, now: u64, window: u64) -> (live: Vec<RequestRecord>)
    ensures
        live@ == live_records(records@, now, window),
        forall|i: int| 0 <= i < live@.len() ==> is_live(now, window, live@[i].mono_ts),
{
    let mut live: Vec<RequestRecord> = Vec::new();
    let mut at: usize = 0;
    let ghost keep = |r: RequestRecord| is_live(now, window, r.mono_ts);
    proof {
        reveal(Seq::filter);
        assert(records@.take(0).filter(keep) =~= Seq::<RequestRecord>::empty());
    }
    while at < records.len()
        invariant
            at <= records.len(),
            keep == |r: RequestRecord| is_live(now, window, r.mono_ts),
            live@ == records@.take(at as int).filter(keep),
        decreases records.len() - at,
    {
        proof {
            assert(records@.take(at + 1) =~= records@.take(at as int).push(records@[at as int]));
            records@.take(at as int).lemma_filter_push(records@[at as int], keep);
        }
        if check_live(now, window, records[at].mono_ts) {
            live.push(records[at].clone());
        }
        at = at + 1;
    }
    proof {
        assert(records@.take(records@.len() as int) =~= records@);
        lemma_live_members(records@, now, window);
    }
    live
}

/// Identifiers are handed out in strictly increasing order: in a valid store
/// they are positive, grow along the records, and lie below the identifier
/// that the next insertion gets.
pub proof fn lemma_ids_ordered(store: &MetricsStore)
    requires
        store.wf(),
    ensures
        ids_increase(store@),
        forall|i: int| 0 <= i < store@.len() ==> 1 <= (#[trigger] store@[i]).id < store.next_id(),
{
}

/// A pending record that is still live stays reachable under its identifier
/// after an eviction, unchanged, and finalizing it then sets exactly the
/// output tokens and the duration that were given.
pub proof fn lemma_finalize_survives_eviction(
    records: Seq<RequestRecord>,
    id: u64,
    now: u64,
    window: u64,
    output_tokens: u64,
    duration: u64,
)
    requires
        ids_increase(records),
        position_of(records, id).is_some(),
        is_live(now, window, records[position_of(records, id).unwrap()].mono_ts),
    ensures
        position_of(live_records(records, now, window), id).is_some(),
        ({
            let kept = live_records(records, now, window);
            let at = position_of(kept, id).unwrap();
            let done = kept.update(at, kept[at].finalized(output_tokens, duration))[at];
            &&& kept[at] == records[position_of(records, id).unwrap()]
            &&& done.id == id
            &&& done.output_tokens == output_tokens
            &&& done.duration == duration
        }),
{
    let keep = |r: RequestRecord| is_live(now, window, r.mono_ts);
    let kept = live_records(records, now, window);
    let from = position_of(records, id).unwrap();
    records.lemma_filter_contains(keep, from);
    let witness = choose|k: int| 0 <= k < kept.len() && kept[k] == records[from];
    assert(kept[witness].id == id);
    let at = position_of(kept, id).unwrap();
    lemma_live_members(records, now, window);
    assert(records.contains(kept[at]));
    let back = choose|i: int| 0 <= i < records.len() && records[i] == kept[at];
    if back < from {
        assert(records[back].id < records[from].id);
    } else if from < back {
        assert(records[from].id < records[back].id);
    }
}

/// The predicate "has this status".
pub open spec fn has_status(status: u16) -> spec_fn(RequestRecord) -> bool {
    |r: RequestRecord| r.status == status
}

/// How many of `records` have `status`.
pub open spec fn status_count(records: Seq<RequestRecord>, status: u16) -> nat {
    records.filter(has_status(status)).len()
}

/// Ascending order.
pub open spec fn ascending(values: Seq<u64>) -> bool {
    forall|i: int, j: int| 0 <= i <= j < values.len() ==> values[i] <= values[j]
}

/// The index picked for percentile `p` among `n` sorted values: `p` percent
/// of `n - 1`, rounded to the nearest index and kept within the values.
pub open spec fn percentile_index(n: nat, p: u8) -> int
    recommends
        n > 0,
{
    let raw = ((p as int) * (n - 1) + 50) / 100;
    if raw > n - 1 {
        n - 1
    } else {
        raw
    }
}

/// `picked` is the value at percentile `p` of `values`: the one at
/// `percentile_index` once the values are put in ascending order, and zero
/// where there are none.
pub open spec fn is_percentile(values: Seq<u64>, p: u8, picked: u64) -> bool {
    if values.len() == 0 {
        picked == 0
    } else {
        exists|sorted: Seq<u64>|
            #[trigger] ascending(sorted) && sorted.to_multiset() == values.to_multiset()
                && sorted.len() == values.len() && picked == sorted[percentile_index(
                values.len(),
                p,
            )]
    }
}

/// A percentile is a single value: whatever meets `is_percentile` for the
/// same values and the same `p` is the same.
pub proof fn lemma_percentile_is_unique(values: Seq<u64>, p: u8, first: u64, second: u64)
    requires
        is_percentile(values, p, first),
        is_percentile(values, p, second),
    ensures
        first == second,
{
    if values.len() > 0 {
        let order = |a: u64, b: u64| a <= b;
        let x = choose|sorted: Seq<u64>|
            #[trigger] ascending(sorted) && sorted.to_multiset() == values.to_multiset()
                && sorted.len() == values.len() && first == sorted[percentile_index(
                values.len(),
                p,
            )];
        let y = choose|sorted: Seq<u64>|
            #[trigger] ascending(sorted) && sorted.to_multiset() == values.to_multiset()
                && sorted.len() == values.len() && second == sorted[percentile_index(
                values.len(),
                p,
            )];
        assert(sorted_by(x, order)) by {
            assert forall|i: int, j: int| 0 <= i < j < x.len() implies #[trigger] order(
                x[i],
                x[j],
            ) by {
                assert(x[i] <= x[j]);
            }
        }
        assert(sorted_by(y, order)) by {
            assert forall|i: int, j: int| 0 <= i < j < y.len() implies #[trigger] order(
                y[i],
                y[j],
            ) by {
                assert(y[i] <= y[j]);
            }
        }
        assert(total_ordering(order));
        lemma_sorted_unique(x, y, order);
    }
}

fn sorted_copy(values: &[u64]) -> (out: Vec<u64>)
    ensures
        ascending(out@),
        out@.to_multiset() == values@.to_multiset(),
        out@.len() == values@.len(),
{
    let mut out: Vec<u64> = Vec::new();
    let mut at: usize = 0;
    proof {
        assert(values@.take(0) =~= out@);
    }
    while at < values.len()
        invariant
            at <= values.len(),
            ascending(out@),
            out@.len() == at,
            out@.to_multiset() == values@.take(at as int).to_multiset(),
        decreases values.len() - at,
    {
        let value = values[at];
        let mut slot: usize = 0;
        while slot < out.len() && out[slot] <= value
            invariant
                slot <= out.len(),
                forall|j: int| 0 <= j < slot ==> out@[j] <= value,
            decreases out.len() - slot,
        {
            slot = slot + 1;
        }
        proof {
            let before = out@;
            let after = before.insert(slot as int, value);
            assert(forall|j: int| slot <= j < before.len() ==> before[j] > value) by {
                if slot < before.len() {
                    assert(forall|j: int|
                        slot <= j < before.len() ==> before[slot as int] <= before[j]);
                }
            }
            assert(ascending(after)) by {
                assert forall|i: int, j: int| 0 <= i <= j < after.len() implies after[i]
                    <= after[j] by {
                    if i < slot && j > slot {
                        assert(before[i] <= before[j - 1]);
                    } else if i > slot {
                        assert(before[i - 1] <= before[j - 1]);
                    } else if j < slot {
                        assert(before[i] <= before[j]);
                    }
                }
            }
            to_multiset_insert(before, slot as int, value);
            assert(values@.take(at + 1) =~= values@.take(at as int).push(value));
            to_multiset_build(values@.take(at as int), value);
        }
        out.insert(slot, value);
        at = at + 1;
    }
    proof {
        assert(values@.take(values@.len() as int) =~= values@);
    }
    out
}

/// What a record adds to its bucket: its tokens, or one request.
pub open spec fn record_value(r: RequestRecord, tokens: bool) -> nat {
    if tokens {
        (r.input_tokens + r.output_tokens) as nat
    } else {
        1
    }
}

/// How many whole minutes before `now` a record was accepted; none for a
/// record from after `now`.
pub open spec fn minute_slot(now: u64, mono_ts: u64) -> Option<int> {
    if mono_ts <= now {
        Some((now - mono_ts) / 60_000)
    } else {
        None
    }
}

/// The sum of the values of the records that fall `slot` minutes before `now`.
pub open spec fn slot_total(records: Seq<RequestRecord>, now: u64, slot: int, tokens: bool) -> nat
    decreases records.len(),
{
    if records.len() == 0 {
        0
    } else {
        let rest = slot_total(records.drop_last(), now, slot, tokens);
        if minute_slot(now, records.last().mono_ts) == Some(slot) {
            rest + record_value(records.last(), tokens)
        } else {
            rest
        }
    }
}

/// A total kept within `u64`.
pub open spec fn capped(total: nat) -> u64 {
    if total > u64::MAX {
        u64::MAX
    } else {
        total as u64
    }
}

fn capped_sum(a: u64, b: u64) -> (sum: u64)
    ensures
        sum == capped((a + b) as nat),
{
    if a > u64::MAX - b {
        u64::MAX
    } else {
        a + b
    }
}

/// The records that share one key.
#[derive(Debug)]
pub struct Group {
    pub key: String,
    pub records: Vec<RequestRecord>,
}

/// The texts of keys.
pub open spec fn key_texts(keys: Seq<String>) -> Seq<Seq<char>> {
    keys.map_values(|key: String| key@)
}

/// The keys of groups.
pub open spec fn group_keys(groups: Seq<Group>) -> Seq<Seq<char>> {
    groups.map_values(|group: Group| group.key@)
}

/// The keys, each once, in the order in which they first appear.
pub open spec fn first_keys(keys: Seq<Seq<char>>) -> Seq<Seq<char>>
    decreases keys.len(),
{
    if keys.len() == 0 {
        Seq::empty()
    } else {
        let before = first_keys(keys.drop_last());
        if before.contains(keys.last()) {
            before
        } else {
            before.push(keys.last())
        }
    }
}

/// The records whose key is `key`, in their order. `keys` holds the key of
/// each record, at the record's position.
pub open spec fn members_of(records: Seq<RequestRecord>, keys: Seq<Seq<char>>, key: Seq<char>) -> Seq<
    RequestRecord,
>
    decreases records.len(),
{
    if records.len() == 0 || keys.len() != records.len() {
        Seq::empty()
    } else {
        let before = members_of(records.drop_last(), keys.drop_last(), key);
        if keys.last() == key {
            before.push(records.last())
        } else {
            before
        }
    }
}

/// `groups` is the grouping of the records by their keys: one group for
/// each key, in the order in which the keys first appear, and in each group
/// the records of its key, in their order.
pub open spec fn grouped(records: Seq<RequestRecord>, keys: Seq<Seq<char>>, groups: Seq<Group>) -> bool {
    &&& group_keys(groups) == first_keys(keys)
    &&& forall|g: int|
        0 <= g < groups.len() ==> (#[trigger] groups[g]).records@ == members_of(
            records,
            keys,
            groups[g].key@,
        )
}

/// `keys` holds, for each record, a key that the key function gives for it.
pub open spec fn keys_from<F: Fn(&RequestRecord) -> String>(
    key_fn: F,
    records: Seq<RequestRecord>,
    keys: Seq<String>,
) -> bool {
    &&& keys.len() == records.len()
    &&& forall|i: int| 0 <= i < records.len() ==> call_ensures(key_fn, (&records[i],), #[trigger] keys[i])
}

/// In a grouping no key comes twice, every record's key has its group, and
/// no group is empty.
pub proof fn lemma_grouping_is_a_partition(keys: Seq<Seq<char>>)
    ensures
        first_keys(keys).no_duplicates(),
        forall|i: int| 0 <= i < keys.len() ==> first_keys(keys).contains(#[trigger] keys[i]),
        forall|g: int|
            0 <= g < first_keys(keys).len() ==> keys.contains(#[trigger] first_keys(keys)[g]),
    decreases keys.len(),
{
    if keys.len() > 0 {
        let front = keys.drop_last();
        lemma_grouping_is_a_partition(front);
        let before = first_keys(front);
        let all = first_keys(keys);
        assert forall|i: int| 0 <= i < keys.len() implies all.contains(#[trigger] keys[i]) by {
            if i < front.len() {
                assert(front[i] == keys[i]);
                assert(before.contains(front[i]));
                let g = choose|g: int| 0 <= g < before.len() && before[g] == front[i];
                assert(all[g] == keys[i]);
            } else if before.contains(keys.last()) {
            } else {
                assert(all[before.len() as int] == keys[i]);
            }
        }
        assert forall|g: int| 0 <= g < all.len() implies keys.contains(#[trigger] all[g]) by {
            if g < before.len() {
                assert(all[g] == before[g]);
                assert(front.contains(before[g]));
                let i = choose|i: int| 0 <= i < front.len() && front[i] == before[g];
                assert(keys[i] == all[g]);
            } else {
                assert(keys[keys.len() - 1] == all[g]);
            }
        }
        if !before.contains(keys.last()) {
            assert forall|g: int, h: int| 0 <= g < all.len() && 0 <= h < all.len() && g != h implies all[g] != all[h] by {
                if g < before.len() && h < before.len() {
                    assert(before[g] != before[h]);
                } else if g < before.len() {
                    assert(before.contains(before[g]));
                } else if h < before.len() {
                    assert(before.contains(before[h]));
                }
            }
        }
    }
}

/// The group of a key that some record has is not empty.
pub proof fn lemma_members_exist(
    records: Seq<RequestRecord>,
    keys: Seq<Seq<char>>,
    key: Seq<char>,
)
    requires
        keys.len() == records.len(),
        keys.contains(key),
    ensures
        members_of(records, keys, key).len() > 0,
    decreases records.len(),
{
    if keys.last() != key {
        let i = choose|i: int| 0 <= i < keys.len() && keys[i] == key;
        assert(keys.drop_last()[i] == key);
        lemma_members_exist(records.drop_last(), keys.drop_last(), key);
    }
}

fn distinct_keys(keys: &Vec<String>) -> (firsts: Vec<String>)
    ensures
        key_texts(firsts@) == first_keys(key_texts(keys@)),
{
    let mut firsts: Vec<String> = Vec::new();
    let mut at: usize = 0;
    let ghost all = key_texts(keys@);
    proof {
        assert(all.take(0) =~= Seq::<Seq<char>>::empty());
        assert(key_texts(firsts@) =~= Seq::<Seq<char>>::empty());
    }
    while at < keys.len()
        invariant
            at <= keys.len(),
            all == key_texts(keys@),
            key_texts(firsts@) == first_keys(all.take(at as int)),
        decreases keys.len() - at,
    {
        let key = &keys[at];
        let mut known = false;
        let mut g: usize = 0;
        while g < firsts.len() && !known
            invariant
                g <= firsts.len(),
                known ==> key_texts(firsts@).contains(key@),
                !known ==> forall|h: int| 0 <= h < g ==> key_texts(firsts@)[h] != key@,
            decreases firsts.len() - g + (if known {
                0int
            } else {
                1int
            }),
        {
            if firsts[g] == *key {
                proof {
                    assert(key_texts(firsts@)[g as int] == key@);
                }
                known = true;
            } else {
                g = g + 1;
            }
        }
        let ghost before = firsts@;
        if !known {
            firsts.push(key.clone());
        }
        proof {
            let next = all.take(at + 1);
            assert(next.drop_last() =~= all.take(at as int));
            assert(next.last() == key@);
            if !known {
                assert(key_texts(firsts@) =~= key_texts(before).push(key@));
            }
        }
        at = at + 1;
    }
    proof {
        assert(all.take(all.len() as int) =~= all);
    }
    firsts
}

fn with_key(records: &[RequestRecord], keys: &Vec<String>, key: &String) -> (members: Vec<
    RequestRecord,
>)
    requires
        keys@.len() == records@.len(),
    ensures
        members@ == members_of(records@, key_texts(keys@), key@),
{
    let mut members: Vec<RequestRecord> = Vec::new();
    let mut at: usize = 0;
    let ghost all = key_texts(keys@);
    proof {
        assert(records@.take(0) =~= Seq::<RequestRecord>::empty());
    }
    while at < records.len()
        invariant
            at <= records.len(),
            keys@.len() == records@.len(),
            all == key_texts(keys@),
            members@ == members_of(records@.take(at as int), all.take(at as int), key@),
        decreases records.len() - at,
    {
        proof {
            assert(records@.take(at + 1).drop_last() =~= records@.take(at as int));
            assert(all.take(at + 1).drop_last() =~= all.take(at as int));
            assert(records@.take(at + 1).last() == records@[at as int]);
            assert(all.take(at + 1).last() == keys@[at as int]@);
        }
        if keys[at] == *key {
            members.push(records[at].clone());
        }
        at = at + 1;
    }
    proof {
        assert(records@.take(records@.len() as int) =~= records@);
        assert(all.take(all.len() as int) =~= all);
    }
    members
}

/// The aggregation helpers: each works on a slice of records, most often a
/// snapshot.
impl MetricsStore {
    /// Counts the records per HTTP status. A status is a key exactly if some
    /// record has it.
    pub fn status_counts(records: &[RequestRecord]) -> (counts: HashMap<u16, u64>)
        ensures
            forall|status: u16| #[trigger]
                counts@.contains_key(status) <==> status_count(records@, status) > 0,
            forall|status: u16| #[trigger]
                counts@.contains_key(status) ==> counts@[status] == status_count(records@, status),
    {
        let mut counts: HashMap<u16, u64> = HashMap::new();
        let mut at: usize = 0;
        proof {
            reveal(Seq::filter);
            assert forall|status: u16| status_count(records@.take(0), status) == 0 by {
                assert(records@.take(0) =~= Seq::<RequestRecord>::empty());
            }
        }
        while at < records.len()
            invariant
                at <= records.len(),
                forall|status: u16| #[trigger]
                    counts@.contains_key(status) <==> status_count(records@.take(at as int), status)
                        > 0,
                forall|status: u16| #[trigger]
                    counts@.contains_key(status) ==> counts@[status] == status_count(
                        records@.take(at as int),
                        status,
                    ),
            decreases records.len() - at,
        {
            let status = records[at].status;
            proof {
                let seen = records@.take(at as int);
                assert(records@.take(at + 1) =~= seen.push(records@[at as int]));
                assert forall|other: u16| #[trigger]
                    status_count(records@.take(at + 1), other) == status_count(seen, other) + (
                    if other == status {
                        1nat
                    } else {
                        0nat
                    }) by {
                    seen.lemma_filter_push(records@[at as int], has_status(other));
                }
                seen.lemma_filter_len(has_status(status));
            }
            let current: u64 = match counts.get(&status) {
                Some(count) => *count,
                None => 0,
            };
            counts.insert(status, current + 1);
            at = at + 1;
        }
        proof {
            assert(records@.take(records@.len() as int) =~= records@);
        }
        counts
    }

    /// The duration at percentile `p`: the values are put in ascending order and
    /// the one at `percentile_index` is picked. No values give zero.
    pub fn duration_percentile(durations: &[u64], p: u8) -> (picked: u64)
        ensures
            is_percentile(durations@, p, picked),
    {
        if durations.len() == 0 {
            return 0;
        }
        let sorted = sorted_copy(durations);
        let last: u128 = (sorted.len() - 1) as u128;
        assert((p as u128) * last <= 255 * 0xFFFF_FFFF_FFFF_FFFF) by (nonlinear_arith)
            requires
                p <= 255,
                last <= 0xFFFF_FFFF_FFFF_FFFF,
        ;
        let raw: u128 = ((p as u128) * last + 50) / 100;
        let index: usize = if raw > last {
            sorted.len() - 1
        } else {
            raw as usize
        };
        sorted[index]
    }

    fn per_minute_buckets(records: &[RequestRecord], now: u64, num_buckets: usize, tokens: bool) -> (buckets:
        Vec<u64>)
        ensures
            buckets@.len() == num_buckets,
            forall|j: int|
                0 <= j < num_buckets ==> #[trigger] buckets@[j] == capped(
                    slot_total(records@, now, num_buckets - 1 - j, tokens),
                ),
    {
        let mut buckets: Vec<u64> = Vec::new();
        while buckets.len() < num_buckets
            invariant
                buckets@.len() <= num_buckets,
                forall|j: int| 0 <= j < buckets@.len() ==> buckets@[j] == 0,
            decreases num_buckets - buckets.len(),
        {
            buckets.push(0);
        }
        let mut at: usize = 0;
        proof {
            assert(records@.take(0) =~= Seq::<RequestRecord>::empty());
        }
        while at < records.len()
            invariant
                at <= records.len(),
                buckets@.len() == num_buckets,
                forall|j: int|
                    0 <= j < num_buckets ==> #[trigger] buckets@[j] == capped(
                        slot_total(records@.take(at as int), now, num_buckets - 1 - j, tokens),
                    ),
            decreases records.len() - at,
        {
            let record = &records[at];
            proof {
                let next = records@.take(at + 1);
                assert(next.drop_last() =~= records@.take(at as int));
                assert(next.last() == records@[at as int]);
            }
            let value: u64 = if tokens {
                capped_sum(record.input_tokens, record.output_tokens)
            } else {
                1
            };
            if record.mono_ts <= now {
                let slot: u64 = (now - record.mono_ts) / 60_000;
                if slot < num_buckets as u64 {
                    let index: usize = num_buckets - 1 - slot as usize;
                    let sum = capped_sum(buckets[index], value);
                    buckets[index] = sum;
                }
            }
            at = at + 1;
        }
        proof {
            assert(records@.take(records@.len() as int) =~= records@);
        }
        buckets
    }

    /// Tokens per minute over the last `num_buckets` minutes before `now`, oldest
    /// minute first. Each bucket is the sum of input and output tokens of its
    /// records, kept within `u64`.
    pub fn tokens_per_minute(records: &[RequestRecord], now: u64, num_buckets: usize) -> (buckets: Vec<
        u64,
    >)
        ensures
            buckets@.len() == num_buckets,
            forall|j: int|
                0 <= j < num_buckets ==> #[trigger] buckets@[j] == capped(
                    slot_total(records@, now, num_buckets - 1 - j, true),
                ),
    {
        Self::per_minute_buckets(records, now, num_buckets, true)
    }

    /// Requests per minute over the last `num_buckets` minutes before `now`,
    /// oldest minute first.
    pub fn requests_per_minute(records: &[RequestRecord], now: u64, num_buckets: usize) -> (buckets:
        Vec<u64>)
        ensures
            buckets@.len() == num_buckets,
            forall|j: int|
                0 <= j < num_buckets ==> #[trigger] buckets@[j] == capped(
                    slot_total(records@, now, num_buckets - 1 - j, false),
                ),
    {
        Self::per_minute_buckets(records, now, num_buckets, false)
    }

    /// Groups records by keys that were computed for them: `keys` holds the
    /// key of each record, at the record's position.
    pub fn group_by_keys(records: &[RequestRecord], keys: &Vec<String>) -> (groups: Vec<Group>)
        requires
            keys@.len() == records@.len(),
        ensures
            grouped(records@, key_texts(keys@), groups@),
    {
        let firsts = distinct_keys(keys);
        let mut groups: Vec<Group> = Vec::new();
        let mut at: usize = 0;
        proof {
            assert(group_keys(groups@) =~= key_texts(firsts@).take(0));
        }
        while at < firsts.len()
            invariant
                at <= firsts.len(),
                keys@.len() == records@.len(),
                group_keys(groups@) == key_texts(firsts@).take(at as int),
                forall|g: int|
                    0 <= g < groups@.len() ==> (#[trigger] groups@[g]).records@ == members_of(
                        records@,
                        key_texts(keys@),
                        groups@[g].key@,
                    ),
            decreases firsts.len() - at,
        {
            let members = with_key(records, keys, &firsts[at]);
            let ghost before = groups@;
            let group = Group { key: firsts[at].clone(), records: members };
            groups.push(group);
            proof {
                assert(group_keys(groups@) =~= group_keys(before).push(firsts@[at as int]@));
                assert(key_texts(firsts@).take(at + 1) =~= key_texts(firsts@).take(at as int).push(
                    firsts@[at as int]@,
                ));
                assert forall|g: int| 0 <= g < groups@.len() implies (
                #[trigger] groups@[g]).records@ == members_of(
                    records@,
                    key_texts(keys@),
                    groups@[g].key@,
                ) by {
                    if g < before.len() {
                        assert(groups@[g] == before[g]);
                    }
                }
            }
            at = at + 1;
        }
        proof {
            assert(key_texts(firsts@).take(firsts@.len() as int) =~= key_texts(firsts@));
        }
        groups
    }

    /// Groups records by the key that `key_fn` gives for each. The groups
    /// come in the order in which their keys first appear; each holds, in
    /// their order, exactly the records of its key.
    pub fn group_by<F: Fn(&RequestRecord) -> String>(records: &[RequestRecord], key_fn: F) -> (groups:
        Vec<Group>)
        requires
            forall|i: int| 0 <= i < records@.len() ==> call_requires(key_fn, (&records@[i],)),
        ensures
            exists|keys: Seq<String>| #[trigger]
                keys_from(key_fn, records@, keys) && grouped(records@, key_texts(keys), groups@),
    {
        let mut keys: Vec<String> = Vec::new();
        let mut at: usize = 0;
        while at < records.len()
            invariant
                at <= records.len(),
                keys@.len() == at,
                forall|i: int| 0 <= i < records@.len() ==> call_requires(key_fn, (&records@[i],)),
                forall|i: int|
                    0 <= i < at ==> call_ensures(key_fn, (&records@[i],), #[trigger] keys@[i]),
            decreases records.len() - at,
        {
            let key = key_fn(&records[at]);
            keys.push(key);
            at = at + 1;
        }
        let groups = Self::group_by_keys(records, &keys);
        proof {
            assert(keys_from(key_fn, records@, keys@));
        }
        groups
    }
}

} // verus!
