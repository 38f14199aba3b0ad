//! Reading the metrics log back: one line into a record, the files of a log
//! into a store, and the steps of following the active file.

use vstd::prelude::*;
use vstd::utf8::encode_utf8;

use crate::json::{
    member, member_text, number_value, string_text, string_value, texts_of, unsigned_value,
};
use crate::metrics::{MetricsStore, RequestRecord, RoutingMethod};
use crate::text::text_eq;
use crate::timefmt::{parse_rfc3339, rfc3339_millis};

verus! {

/// What one line of the log says.
pub struct LogEntry {
    pub wall_ts: i64,
    pub model: Seq<char>,
    pub provider: Seq<char>,
    pub status: u16,
    pub duration: u64,
    pub input_tokens: u64,
    pub output_tokens: u64,
    pub error: Option<Seq<char>>,
}

/// The member `key` of a JSON object, where it is a string.
pub open spec fn text_field(doc: Seq<u8>, key: Seq<char>) -> Option<Seq<char>> {
    match member_text(doc, key) {
        Some(member) => string_text(encode_utf8(member)),
        None => None,
    }
}

/// The member `key` of a JSON object, where it is an integer in `u64`.
pub open spec fn number_field(doc: Seq<u8>, key: Seq<char>) -> Option<u64> {
    match member_text(doc, key) {
        Some(member) => number_value(encode_utf8(member)),
        None => None,
    }
}

/// The member `error` of a JSON object: no marker where it is missing or
/// `null`, the marker where it is a string; anything else is refused.
pub open spec fn error_field(doc: Seq<u8>) -> Option<Option<Seq<char>>> {
    match member_text(doc, "error"@) {
        None => Some(None),
        Some(member) => if member == "null"@ {
            Some(None)
        } else {
            match string_text(encode_utf8(member)) {
                Some(marker) => Some(Some(marker)),
                None => None,
            }
        },
    }
}

/// The instant of a line: its `timestamp`, read as RFC 3339.
pub open spec fn stamp_field(doc: Seq<u8>) -> Option<i64> {
    match text_field(doc, "timestamp"@) {
        Some(stamp) => rfc3339_millis(stamp),
        None => None,
    }
}

/// What a line says, where it is a JSON object with every field of a log
/// entry in its proper form.
pub open spec fn entry_of(doc: Seq<u8>) -> Option<LogEntry> {
    if stamp_field(doc).is_some() && text_field(doc, "model"@).is_some() && text_field(
        doc,
        "provider"@,
    ).is_some() && number_field(doc, "status"@).is_some() && number_field(
        doc,
        "status"@,
    ).unwrap() <= u16::MAX && number_field(doc, "duration_ms"@).is_some() && number_field(
        doc,
        "input_tokens"@,
    ).is_some() && number_field(doc, "output_tokens"@).is_some() && error_field(doc).is_some() {
        Some(
            LogEntry {
                wall_ts: stamp_field(doc).unwrap(),
                model: text_field(doc, "model"@).unwrap(),
                provider: text_field(doc, "provider"@).unwrap(),
                status: number_field(doc, "status"@).unwrap() as u16,
                duration: number_field(doc, "duration_ms"@).unwrap(),
                input_tokens: number_field(doc, "input_tokens"@).unwrap(),
                output_tokens: number_field(doc, "output_tokens"@).unwrap(),
                error: error_field(doc).unwrap(),
            },
        )
    } else {
        None
    }
}

/// The instant on the monotonic clock that stands for a wall-clock instant
/// in the past: as long before `now_mono` as the instant lies before
/// `now_wall`. There is none for an instant in the future, nor for one
/// further back than the monotonic clock reaches.
pub open spec fn replayed_instant(wall_ts: i64, now_wall: i64, now_mono: u64) -> Option<u64> {
    if wall_ts <= now_wall && now_wall - wall_ts <= now_mono {
        Some((now_mono - (now_wall - wall_ts)) as u64)
    } else {
        None
    }
}

/// The record `r` holds what the entry says, at the instant `mono_ts`.
pub open spec fn record_holds(r: RequestRecord, entry: LogEntry, mono_ts: u64) -> bool {
    &&& r.mono_ts == mono_ts
    &&& r.wall_ts == entry.wall_ts
    &&& r.model@ == entry.model
    &&& r.provider@ == entry.provider
    &&& r.routing_method == RoutingMethod::Default
    &&& r.status == entry.status
    &&& r.duration == entry.duration
    &&& r.input_tokens == entry.input_tokens
    &&& r.output_tokens == entry.output_tokens
    &&& r.error_body.is_some() == entry.error.is_some()
    &&& r.error_body.is_some() ==> r.error_body.unwrap()@ == entry.error.unwrap()
}

/// The entry of a line and its instant on the monotonic clock, where the
/// line gives a record.
pub open spec fn parsed_line(line: Seq<char>, now_wall: i64, now_mono: u64) -> Option<
    (LogEntry, u64),
> {
    match entry_of(encode_utf8(line)) {
        Some(entry) => match replayed_instant(entry.wall_ts, now_wall, now_mono) {
            Some(mono_ts) => Some((entry, mono_ts)),
            None => None,
        },
        None => None,
    }
}

fn read_text(doc: &[u8], key: &str) -> (out: Option<String>)
    ensures
        out.is_some() == text_field(doc@, key@).is_some(),
        out.is_some() ==> out.unwrap()@ == text_field(doc@, key@).unwrap(),
{
    match member(doc, key) {
        Some(found) => string_value(found.as_str().as_bytes()),
        None => None,
    }
}

fn read_number(doc: &[u8], key: &str) -> (out: Option<u64>)
    ensures
        out == number_field(doc@, key@),
{
    match member(doc, key) {
        Some(found) => unsigned_value(found.as_str().as_bytes()),
        None => None,
    }
}

/// The record on one line of the log, without identifier. A line that is no
/// log entry gives none; nor does one from the future, or from further back
/// than the monotonic clock reaches.
pub fn parse_log_entry(line: &str, now_wall: i64, now_mono: u64) -> (out: Option<RequestRecord>)
    ensures
        out.is_some() == parsed_line(line@, now_wall, now_mono).is_some(),
        out.is_some() ==> out.unwrap().id == 0 && record_holds(
            out.unwrap(),
            parsed_line(line@, now_wall, now_mono).unwrap().0,
            parsed_line(line@, now_wall, now_mono).unwrap().1,
        ),
{
    let doc = line.as_bytes();
    let stamp = match read_text(doc, "timestamp") {
        Some(stamp) => stamp,
        None => {
            return None;
        },
    };
    let wall_ts = match parse_rfc3339(stamp.as_str()) {
        Some(wall_ts) => wall_ts,
        None => {
            return None;
        },
    };
    let model = match read_text(doc, "model") {
        Some(model) => model,
        None => {
            return None;
        },
    };
    let provider = match read_text(doc, "provider") {
        Some(provider) => provider,
        None => {
            return None;
        },
    };
    let status = match read_number(doc, "status") {
        Some(status) => status,
        None => {
            return None;
        },
    };
    if status > 65535 {
        return None;
    }
    let duration = match read_number(doc, "duration_ms") {
        Some(duration) => duration,
        None => {
            return None;
        },
    };
    let input_tokens = match read_number(doc, "input_tokens") {
        Some(tokens) => tokens,
        None => {
            return None;
        },
    };
    let output_tokens = match read_number(doc, "output_tokens") {
        Some(tokens) => tokens,
        None => {
            return None;
        },
    };
    let error_body: Option<String> = match member(doc, "error") {
        None => None,
        Some(found) => if text_eq(found.as_str(), "null") {
            None
        } else {
            match string_value(found.as_str().as_bytes()) {
                Some(marker) => Some(marker),
                None => {
                    return None;
                },
            }
        },
    };
    if wall_ts > now_wall {
        return None;
    }
    let age: i128 = now_wall as i128 - wall_ts as i128;
    if age > now_mono as i128 {
        return None;
    }
    let mono_ts: u64 = (now_mono as i128 - age) as u64;
    Some(
        RequestRecord {
            id: 0,
            mono_ts,
            wall_ts,
            model,
            provider,
            routing_method: RoutingMethod::Default,
            status: status as u16,
            duration,
            input_tokens,
            output_tokens,
            error_body,
        },
    )
}

/// What replaying a line adds to a store: the entry of the line and its
/// instant, where the line gives a record that is no older than `retention`.
pub open spec fn replayed_line(line: Seq<char>, now_wall: i64, now_mono: u64, retention: u64) -> Option<
    (LogEntry, u64),
> {
    match parsed_line(line, now_wall, now_mono) {
        Some(parsed) => if now_wall - parsed.0.wall_ts <= retention {
            Some(parsed)
        } else {
            None
        },
        None => None,
    }
}

/// What replaying lines adds to a store, in the order of the lines.
pub open spec fn replayed(lines: Seq<Seq<char>>, now_wall: i64, now_mono: u64, retention: u64) -> Seq<
    (LogEntry, u64),
>
    decreases lines.len(),
{
    if lines.len() == 0 {
        Seq::empty()
    } else {
        let rest = replayed(lines.drop_last(), now_wall, now_mono, retention);
        match replayed_line(lines.last(), now_wall, now_mono, retention) {
            Some(parsed) => rest.push(parsed),
            None => rest,
        }
    }
}

/// Replays lines of the log into a store, in their order. Empty lines, lines
/// that are no log entries and entries older than `retention` are skipped;
/// every other line adds one record under the next identifier. The records
/// that were there stay as they are. Fed with the lines of the files in
/// replay order, the store holds the records in the order in which they
/// were written.
pub fn load_history(
    store: &mut MetricsStore,
    lines: &[String],
    now_wall: i64,
    now_mono: u64,
    retention: u64,
) -> (added: usize)
    requires
        old(store).wf(),
        old(store).next_id() + lines@.len() <= u64::MAX,
    ensures
        final(store).wf(),
        final(store).window() == old(store).window(),
        final(store).logging() == old(store).logging(),
        added == replayed(texts_of(lines@), now_wall, now_mono, retention).len(),
        final(store).next_id() == old(store).next_id() + added,
        final(store)@.len() == old(store)@.len() + added,
        final(store)@.take(old(store)@.len() as int) == old(store)@,
        forall|k: int|
            0 <= k < added ==> {
                let r = #[trigger] final(store)@[old(store)@.len() + k];
                let parsed = replayed(texts_of(lines@), now_wall, now_mono, retention)[k];
                r.id == old(store).next_id() + k && record_holds(r, parsed.0, parsed.1)
            },
{
    let mut added: usize = 0;
    let mut at: usize = 0;
    let ghost all = texts_of(lines@);
    proof {
        assert(all.take(0) =~= Seq::<Seq<char>>::empty());
        assert(store@.take(store@.len() as int) =~= store@);
    }
    while at < lines.len()
        invariant
            at <= lines.len(),
            added <= at,
            all == texts_of(lines@),
            store.wf(),
            old(store).next_id() + lines@.len() <= u64::MAX,
            store.window() == old(store).window(),
            store.logging() == old(store).logging(),
            added == replayed(all.take(at as int), now_wall, now_mono, retention).len(),
            store.next_id() == old(store).next_id() + added,
            store@.len() == old(store)@.len() + added,
            store@.take(old(store)@.len() as int) == old(store)@,
            forall|k: int|
                0 <= k < added ==> {
                    let r = #[trigger] store@[old(store)@.len() + k];
                    let parsed = replayed(all.take(at as int), now_wall, now_mono, retention)[k];
                    r.id == old(store).next_id() + k && record_holds(r, parsed.0, parsed.1)
                },
        decreases lines.len() - at,
    {
        proof {
            let next = all.take(at + 1);
            assert(next.drop_last() =~= all.take(at as int));
            assert(next.last() == lines@[at as int]@);
        }
        let ghost before = store@;
        match parse_log_entry(lines[at].as_str(), now_wall, now_mono) {
            Some(record) => {
                if (now_wall as i128) - (record.wall_ts as i128) <= retention as i128 {
                    store.record(record);
                    proof {
                        assert(store@.take(old(store)@.len() as int) =~= before.take(
                            old(store)@.len() as int,
                        ));
                    }
                    added = added + 1;
                }
            },
            None => {},
        }
        at = at + 1;
    }
    proof {
        assert(all.take(all.len() as int) =~= all);
    }
    added
}

/// What the follower of the active file does at a poll.
#[derive(Clone, Copy, Debug, PartialEq, Eq, Structural)]
pub enum TailAction {
    /// Nothing is new, or the file is not there.
    Wait,
    /// Read the lines from this offset on.
    Read { from: u64 },
}

/// The position that the follower reads from, given the length of the file:
/// the start of the file where the file has shrunk, which shows a rotation;
/// else where it stopped.
pub open spec fn tail_position(position: u64, file_len: Option<u64>) -> u64 {
    match file_len {
        Some(len) => if len < position {
            0
        } else {
            position
        },
        None => position,
    }
}

/// One poll of the follower: its position afterwards, and what it does.
/// `file_len` is the length of the active file, where it exists.
pub fn tail_log(position: u64, file_len: Option<u64>) -> (step: (u64, TailAction))
    ensures
        step.0 == tail_position(position, file_len),
        step.1 == match file_len {
            Some(len) => if len == tail_position(position, file_len) {
                TailAction::Wait
            } else {
                TailAction::Read { from: tail_position(position, file_len) }
            },
            None => TailAction::Wait,
        },
{
    match file_len {
        None => (position, TailAction::Wait),
        Some(len) => {
            let from = if len < position {
                0
            } else {
                position
            };
            if len == from {
                (from, TailAction::Wait)
            } else {
                (from, TailAction::Read { from })
            }
        },
    }
}

/// The position after a line of `line_bytes` bytes was read, kept within
/// `u64`.
pub fn tail_advance(position: u64, line_bytes: usize) -> (next: u64)
    ensures
        next == if position + line_bytes <= u64::MAX {
            (position + line_bytes) as u64
        } else {
            u64::MAX
        },
{
    let sum: u128 = position as u128 + line_bytes as u128;
    if sum > u64::MAX as u128 {
        u64::MAX
    } else {
        sum as u64
    }
}

/// Takes one line that the follower read into the store: a line that gives
/// a record adds it under the next identifier; any other line changes
/// nothing.
pub fn tail_line(store: &mut MetricsStore, line: &str, now_wall: i64, now_mono: u64) -> (taken: bool)
    requires
        old(store).wf(),
        old(store).next_id() < u64::MAX,
    ensures
        final(store).wf(),
        final(store).window() == old(store).window(),
        final(store).logging() == old(store).logging(),
        taken == parsed_line(line@, now_wall, now_mono).is_some(),
        !taken ==> final(store)@ == old(store)@ && final(store).next_id() == old(store).next_id(),
        taken ==> {
            let parsed = parsed_line(line@, now_wall, now_mono).unwrap();
            &&& final(store)@.len() == old(store)@.len() + 1
            &&& final(store)@.take(old(store)@.len() as int) == old(store)@
            &&& final(store)@.last().id == old(store).next_id()
            &&& record_holds(final(store)@.last(), parsed.0, parsed.1)
            &&& final(store).next_id() == old(store).next_id() + 1
        },
{
    match parse_log_entry(line, now_wall, now_mono) {
        Some(record) => {
            store.record(record);
            proof {
                assert(store@.take(old(store)@.len() as int) =~= old(store)@);
            }
            true
        },
        None => false,
    }
}

} // verus!
