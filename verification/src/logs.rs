//! The bounded, append-only log buffer and its follow/pause semantics.
//!
//! The buffer is populated by a historical snapshot read and repeated
//! incremental reads.  Its length never exceeds its capacity: appending
//! past capacity evicts the oldest record and shifts any tracked selection
//! down by one, never below zero.  An incremental read is guarded by a
//! timestamp cursor: only records stamped strictly later than the cursor
//! are kept, and at most a fixed count per poll.

use std::collections::VecDeque;

use vstd::prelude::*;

use crate::text::{all_digits, chars_of, dec_val, parse_u64_chars};

verus! {

/// At most this many records are accepted per incremental poll.
pub const SINCE_CAP: usize = 500;

/// One rendered log record.
pub struct LogEntry {
    pub timestamp_micros: u64,
    pub display_time: String,
    pub unit: String,
    pub message: String,
    pub priority: u8,
}

/// The mathematical value of a [`LogEntry`].
pub ghost struct LogEntryV {
    pub timestamp_micros: int,
    pub display_time: Seq<char>,
    pub unit: Seq<char>,
    pub message: Seq<char>,
    pub priority: int,
}

impl View for LogEntry {
    type V = LogEntryV;

    open spec fn view(&self) -> LogEntryV {
        LogEntryV {
            timestamp_micros: self.timestamp_micros as int,
            display_time: self.display_time@,
            unit: self.unit@,
            message: self.message@,
            priority: self.priority as int,
        }
    }
}

/// The views of a sequence of records.
pub open spec fn entries_view(s: Seq<LogEntry>) -> Seq<LogEntryV> {
    Seq::new(s.len(), |i: int| s[i]@)
}

/// Relies on chrono: renders an epoch-seconds instant in local time as
/// "yymmdd HH:MM:SS" — six two-digit numeric fields, so always fifteen
/// characters — or nothing for an instant outside chrono's representable
/// range.
#[verifier::external_body]
fn format_timestamp(secs: i64) -> (r: Option<String>)
    ensures
        r is Some ==> r->Some_0@.len() == 15,
{
    match chrono::DateTime::from_timestamp(secs, 0) {
        Some(dt) => {
            let local: chrono::DateTime<chrono::Local> = dt.into();
            Some(local.format("%y%m%d %H:%M:%S").to_string())
        }
        None => None,
    }
}

/// The view of an optional string.
pub open spec fn opt_view(o: Option<String>) -> Option<Seq<char>> {
    match o {
        Some(s) => Some(s@),
        None => None,
    }
}

/// The source a record is attributed to: the unit field, else the syslog
/// identifier, else a literal "system" placeholder.
pub open spec fn source_of(unit_field: Option<Seq<char>>, syslog_id: Option<Seq<char>>) -> Seq<
    char,
> {
    match unit_field {
        Some(u) => u,
        None => match syslog_id {
            Some(s) => s,
            None => "system"@,
        },
    }
}

/// The priority a record carries: its priority field read as a decimal
/// number if that fits a byte, else the informational default 6.
pub open spec fn priority_of(field: Option<Seq<char>>) -> int {
    match field {
        Some(s) => if s.len() > 0 && all_digits(s) && dec_val(s) <= 255 {
            dec_val(s)
        } else {
            6
        },
        None => 6,
    }
}

/// Builds one record from the fields of a raw journal entry.  A record
/// without a message is skipped; a missing source falls back to the syslog
/// identifier and then to "system"; an absent or unreadable priority
/// defaults to informational.
pub fn read_entry(
    timestamp_micros: u64,
    message: Option<String>,
    unit_field: Option<String>,
    syslog_id: Option<String>,
    priority_field: Option<String>,
) -> (r: Option<LogEntry>)
    ensures
        r is Some <==> message is Some,
        r is Some ==> {
            let e = r->Some_0@;
            &&& e.timestamp_micros == timestamp_micros as int
            &&& Some(e.message) == opt_view(message)
            &&& e.unit == source_of(opt_view(unit_field), opt_view(syslog_id))
            &&& e.priority == priority_of(opt_view(priority_field))
            &&& (e.display_time.len() == 15 || e.display_time == "?"@)
        },
{
    let message = match message {
        Some(m) => m,
        None => {
            return None;
        }
    };
    let unit = match unit_field {
        Some(u) => u,
        None => match syslog_id {
            Some(s) => s,
            None => "system".to_owned(),
        },
    };
    let priority: u8 = match priority_field {
        Some(p) => {
            let chars = chars_of(p.as_str());
            match parse_u64_chars(&chars) {
                Some(v) => {
                    if v <= 255 {
                        v as u8
                    } else {
                        6
                    }
                }
                None => 6,
            }
        }
        None => 6,
    };
    let secs = timestamp_micros / 1_000_000;
    proof {
        assert(secs * 1_000_000 <= timestamp_micros) by (nonlinear_arith)
            requires
                secs == timestamp_micros / 1_000_000,
        ;
    }
    let display_time = match format_timestamp(secs as i64) {
        Some(s) => s,
        None => "?".to_owned(),
    };
    Some(LogEntry { timestamp_micros, display_time, unit, message, priority })
}

/// The records of a poll that pass the cursor: those stamped strictly
/// later, in order.
pub open spec fn kept(s: Seq<LogEntryV>, cursor: u64) -> Seq<LogEntryV>
    decreases s.len(),
{
    if s.len() == 0 {
        Seq::empty()
    } else {
        let rest = kept(s.drop_last(), cursor);
        if s.last().timestamp_micros > cursor as int {
            rest.push(s.last())
        } else {
            rest
        }
    }
}

/// What an incremental poll accepts: the records past the cursor, capped
/// at [`SINCE_CAP`].
pub open spec fn since_spec(s: Seq<LogEntryV>, cursor: u64) -> Seq<LogEntryV> {
    let k = kept(s, cursor);
    if k.len() > SINCE_CAP as int {
        k.subrange(0, SINCE_CAP as int)
    } else {
        k
    }
}

/// Everything the cursor keeps is stamped strictly later than the cursor.
pub proof fn lemma_kept_after_cursor(s: Seq<LogEntryV>, cursor: u64)
    ensures
        forall|i: int|
            0 <= i < kept(s, cursor).len() ==> #[trigger] kept(s, cursor)[i].timestamp_micros
                > cursor as int,
    decreases s.len(),
{
    if s.len() > 0 {
        lemma_kept_after_cursor(s.drop_last(), cursor);
        assert forall|i: int| 0 <= i < kept(s, cursor).len() implies #[trigger] kept(
            s,
            cursor,
        )[i].timestamp_micros > cursor as int by {
            let rest = kept(s.drop_last(), cursor);
            if i < rest.len() {
                assert(kept(s, cursor)[i] == rest[i]);
            }
        }
    }
}

/// The records a shorter scan keeps are a prefix of what the whole scan
/// keeps.
proof fn lemma_kept_prefix(s: Seq<LogEntryV>, i: int)
    requires
        0 <= i <= s.len(),
    ensures
        forall|cursor: u64|
            {
                let a = kept(s.subrange(0, i), cursor);
                let b = #[trigger] kept(s, cursor);
                a.len() <= b.len() && a == b.subrange(0, a.len() as int)
            },
    decreases s.len() - i,
{
    if i < s.len() {
        lemma_kept_prefix(s, i + 1);
        assert forall|cursor: u64|
            {
                let a = kept(s.subrange(0, i), cursor);
                let b = #[trigger] kept(s, cursor);
                a.len() <= b.len() && a == b.subrange(0, a.len() as int)
            } by {
            let a = kept(s.subrange(0, i), cursor);
            let m = kept(s.subrange(0, i + 1), cursor);
            let b = kept(s, cursor);
            assert(s.subrange(0, i + 1).drop_last() =~= s.subrange(0, i));
            assert(m.len() <= b.len() && m == b.subrange(0, m.len() as int));
            assert(a =~= m.subrange(0, a.len() as int));
            assert(a =~= b.subrange(0, a.len() as int));
        }
    } else {
        assert(s.subrange(0, i) =~= s);
        assert forall|cursor: u64|
            {
                let a = kept(s.subrange(0, i), cursor);
                let b = #[trigger] kept(s, cursor);
                a.len() <= b.len() && a == b.subrange(0, a.len() as int)
            } by {
            let a = kept(s.subrange(0, i), cursor);
            assert(a =~= kept(s, cursor).subrange(0, a.len() as int));
        }
    }
}


/// Filtering preserves the records' order: the kept records of an ordered
/// poll are still ordered, and never stamped past the poll's newest.
pub proof fn lemma_kept_sorted(s: Seq<LogEntryV>, cursor: u64)
    requires
        stamps_sorted(s),
    ensures
        stamps_sorted(kept(s, cursor)),
        kept(s, cursor).len() > 0 && s.len() > 0 ==> kept(s, cursor).last().timestamp_micros
            <= s.last().timestamp_micros,
    decreases s.len(),
{
    if s.len() > 0 {
        let d = s.drop_last();
        assert forall|i: int, j: int| 0 <= i < j < d.len() implies (
        #[trigger] d[i]).timestamp_micros <= (#[trigger] d[j]).timestamp_micros by {
            assert(d[i] == s[i]);
            assert(d[j] == s[j]);
        }
        lemma_kept_sorted(d, cursor);
        let rest = kept(d, cursor);
        if d.len() > 0 {
            assert(d.last() == s[s.len() - 2]);
        }
        if s.last().timestamp_micros > cursor as int {
            let r = rest.push(s.last());
            assert forall|i: int, j: int| 0 <= i < j < r.len() implies (
            #[trigger] r[i]).timestamp_micros <= (#[trigger] r[j]).timestamp_micros by {
                if j < rest.len() {
                    assert(r[i] == rest[i]);
                    assert(r[j] == rest[j]);
                } else {
                    assert(r[i] == rest[i]);
                    if rest.len() > 0 {
                        assert(rest[i].timestamp_micros <= rest.last().timestamp_micros);
                    }
                }
            }
        }
    }
}

/// Filters one poll's worth of candidate records against a cursor: only
/// records stamped strictly later than the cursor are kept, at most
/// [`SINCE_CAP`] of them, in order.  A record stamped exactly at the
/// cursor is dropped, so a boundary record that is read again never
/// reappears.
pub fn keep_since(fresh: Vec<LogEntry>, cursor: u64) -> (r: Vec<LogEntry>)
    ensures
        entries_view(r@) == since_spec(entries_view(fresh@), cursor),
        forall|i: int| 0 <= i < r@.len() ==> #[trigger] r@[i]@.timestamp_micros > cursor as int,
        stamps_sorted(entries_view(fresh@)) ==> stamps_sorted(entries_view(r@)),
{
    let ghost full = entries_view(fresh@);
    let ghost orig = fresh@;
    let mut fresh = fresh;
    let mut r: Vec<LogEntry> = Vec::new();
    while fresh.len() > 0 && r.len() < SINCE_CAP
        invariant
            fresh@.len() <= orig.len(),
            fresh@ == orig.subrange(orig.len() - fresh@.len(), orig.len() as int),
            full == entries_view(orig),
            entries_view(r@) == kept(full.subrange(0, orig.len() - fresh@.len()), cursor),
            r@.len() <= SINCE_CAP,
        decreases fresh@.len(),
    {
        let ghost i = orig.len() - fresh@.len();
        let ghost pre = full.subrange(0, i);
        let ghost cur = full.subrange(0, i + 1);
        let e = fresh.remove(0);
        proof {
            assert(e == orig[i]);
            assert(fresh@ =~= orig.subrange(i + 1, orig.len() as int));
            assert(cur.drop_last() =~= pre);
            assert(cur.last() == e@);
        }
        if e.timestamp_micros > cursor {
            proof {
                assert(entries_view(r@).push(e@) =~= kept(cur, cursor));
            }
            r.push(e);
            proof {
                assert(entries_view(r@) =~= kept(cur, cursor));
            }
        } else {
            proof {
                assert(entries_view(r@) =~= kept(cur, cursor));
            }
        }
    }
    proof {
        let ghost i = orig.len() - fresh@.len();
        let k = kept(full, cursor);
        lemma_kept_prefix(full, i as int);
        let a = kept(full.subrange(0, i as int), cursor);
        if fresh@.len() > 0 {
            assert(a.len() == SINCE_CAP);
            assert(entries_view(r@) =~= k.subrange(0, SINCE_CAP as int));
        } else {
            assert(full.subrange(0, i as int) =~= full);
        }
        lemma_kept_after_cursor(full, cursor);
        assert forall|j: int| 0 <= j < r@.len() implies #[trigger] r@[j]@.timestamp_micros
            > cursor as int by {
            assert(entries_view(r@)[j] == k.subrange(0, entries_view(r@).len() as int)[j]);
        }
        if stamps_sorted(full) {
            lemma_kept_sorted(full, cursor);
            let rv = entries_view(r@);
            assert forall|a: int, b: int| 0 <= a < b < rv.len() implies (
            #[trigger] rv[a]).timestamp_micros <= (#[trigger] rv[b]).timestamp_micros by {
                assert(rv[a] == k[a]);
                assert(rv[b] == k[b]);
            }
        }
    }
    r
}



/// Where the log window starts: pinned to the tail when everything past
/// the cursor fits, and to the cursor otherwise.
pub open spec fn log_window_spec(len: int, selected: int, visible: int) -> int {
    if len <= visible {
        0
    } else if selected >= len - visible {
        len - visible
    } else {
        selected
    }
}

/// Recomputes the log window's first row from the cursor and the row
/// count.
pub fn log_window(len: usize, selected: usize, visible: usize) -> (r: usize)
    ensures
        r as int == log_window_spec(len as int, selected as int, visible as int),
{
    if len <= visible {
        0
    } else if selected >= len - visible {
        len - visible
    } else {
        selected
    }
}

/// The buffer contents after appending a batch of records to a bounded
/// buffer: each append past capacity evicts the oldest record.
pub open spec fn buf_after(buf: Seq<LogEntryV>, fresh: Seq<LogEntryV>, max: int) -> Seq<LogEntryV>
    decreases fresh.len(),
{
    if fresh.len() == 0 {
        buf
    } else {
        let prev = buf_after(buf, fresh.drop_last(), max);
        let pushed = prev.push(fresh.last());
        if pushed.len() > max {
            pushed.drop_first()
        } else {
            pushed
        }
    }
}


/// The buffer stays bounded under any batch of appends: starting within
/// capacity, it never grows past it.
pub proof fn lemma_buffer_bounded(buf: Seq<LogEntryV>, fresh: Seq<LogEntryV>, max: int)
    requires
        0 <= max,
        buf.len() <= max,
    ensures
        buf_after(buf, fresh, max).len() <= max,
    decreases fresh.len(),
{
    if fresh.len() > 0 {
        lemma_buffer_bounded(buf, fresh.drop_last(), max);
    }
}

/// The tracked selection after appending a batch: each eviction shifts it
/// down by one, never below zero.
pub open spec fn sel_after(buf: Seq<LogEntryV>, fresh: Seq<LogEntryV>, max: int, sel: int) -> int
    decreases fresh.len(),
{
    if fresh.len() == 0 {
        sel
    } else {
        let prev = buf_after(buf, fresh.drop_last(), max);
        let prev_sel = sel_after(buf, fresh.drop_last(), max, sel);
        if prev.len() + 1 > max {
            if prev_sel > 0 {
                prev_sel - 1
            } else {
                0
            }
        } else {
            prev_sel
        }
    }
}


/// The records' timestamps never decrease front to back.
pub open spec fn stamps_sorted(s: Seq<LogEntryV>) -> bool {
    forall|i: int, j: int|
        0 <= i < j < s.len() ==> (#[trigger] s[i]).timestamp_micros <= (
        #[trigger] s[j]).timestamp_micros
}

/// Bounded appending keeps the buffer's timestamps non-decreasing, as
/// long as the batch is itself in order and arrives strictly after the
/// buffer's newest record.
pub proof fn lemma_buf_after_sorted(buf: Seq<LogEntryV>, fresh: Seq<LogEntryV>, max: int)
    requires
        stamps_sorted(buf),
        stamps_sorted(fresh),
        buf.len() > 0 ==> forall|k: int|
            0 <= k < fresh.len() ==> (#[trigger] fresh[k]).timestamp_micros > last_stamp(buf),
    ensures
        stamps_sorted(buf_after(buf, fresh, max)),
        buf_after(buf, fresh, max).len() > 0 ==> last_stamp(buf_after(buf, fresh, max)) <= (
        if fresh.len() > 0 {
            fresh.last().timestamp_micros
        } else {
            last_stamp(buf)
        }),
    decreases fresh.len(),
{
    if fresh.len() > 0 {
        let d = fresh.drop_last();
        assert forall|i: int, j: int| 0 <= i < j < d.len() implies (
        #[trigger] d[i]).timestamp_micros <= (#[trigger] d[j]).timestamp_micros by {
            assert(d[i] == fresh[i]);
            assert(d[j] == fresh[j]);
        }
        if buf.len() > 0 {
            assert forall|k: int| 0 <= k < d.len() implies (#[trigger] d[k]).timestamp_micros
                > last_stamp(buf) by {
                assert(d[k] == fresh[k]);
            }
        }
        lemma_buf_after_sorted(buf, d, max);
        let prev = buf_after(buf, d, max);
        let pushed = prev.push(fresh.last());
        assert forall|i: int| 0 <= i < prev.len() implies (#[trigger] prev[i]).timestamp_micros
            <= fresh.last().timestamp_micros by {
            assert(prev[i].timestamp_micros <= prev.last().timestamp_micros);
            if d.len() > 0 {
                assert(d.last() == fresh[fresh.len() - 2]);
            } else {
                assert(prev == buf);
                assert(fresh[fresh.len() - 1] == fresh.last());
            }
        }
        assert forall|i: int, j: int| 0 <= i < j < pushed.len() implies (
        #[trigger] pushed[i]).timestamp_micros <= (#[trigger] pushed[j]).timestamp_micros by {
            if j < prev.len() {
                assert(pushed[i] == prev[i]);
                assert(pushed[j] == prev[j]);
            } else {
                assert(pushed[i] == prev[i]);
                assert(pushed[j] == fresh.last());
            }
        }
        if pushed.len() > max {
            let r = pushed.drop_first();
            assert forall|i: int, j: int| 0 <= i < j < r.len() implies (
            #[trigger] r[i]).timestamp_micros <= (#[trigger] r[j]).timestamp_micros by {
                assert(r[i] == pushed[i + 1]);
                assert(r[j] == pushed[j + 1]);
            }
            if r.len() > 0 {
                assert(r.last() == pushed.last());
            }
        }
    }
}

/// The timestamp cursor of a buffer: the newest record's stamp, or zero
/// for an empty buffer.
pub open spec fn last_stamp(s: Seq<LogEntryV>) -> int {
    if s.len() == 0 {
        0
    } else {
        s.last().timestamp_micros
    }
}

/// The ambient journal view: a bounded record buffer with follow and
/// pause flags and a tracked selection.
pub struct LogsContext {
    pub entries: VecDeque<LogEntry>,
    pub max_entries: usize,
    pub filter_unit: Option<String>,
    pub paused: bool,
    pub follow_mode: bool,
    pub selected: usize,
}

impl LogsContext {
    /// The buffer never exceeds its capacity, and the selection lies in
    /// range whenever the buffer is non-empty.
    pub open spec fn wf(self) -> bool {
        &&& self.entries@.len() <= self.max_entries
        &&& (self.entries@.len() == 0 ==> self.selected == 0)
        &&& (self.entries@.len() > 0 ==> (self.selected as int) < self.entries@.len())
    }

    /// Everything but the buffer and the selection is the same.
    pub open spec fn same_config(self, other: LogsContext) -> bool {
        &&& self.max_entries == other.max_entries
        &&& self.filter_unit == other.filter_unit
        &&& self.paused == other.paused
        &&& self.follow_mode == other.follow_mode
    }

    /// An empty buffer holding up to 1000 records, following and not
    /// paused, with no unit filter.
    pub fn new() -> (r: LogsContext)
        ensures
            r.wf(),
            r.entries@.len() == 0,
            r.max_entries == 1000usize,
            r.filter_unit is None,
            !r.paused,
            r.follow_mode,
            r.selected == 0usize,
    {
        LogsContext {
            entries: VecDeque::new(),
            max_entries: 1000,
            filter_unit: None,
            paused: false,
            follow_mode: true,
            selected: 0,
        }
    }

    /// Appends one record.  Past capacity the oldest record is evicted and
    /// the selection shifts down by one, never below zero; the buffer
    /// never grows beyond its capacity.
    pub fn add_entry(&mut self, entry: LogEntry)
        requires
            old(self).wf(),
        ensures
            final(self).wf(),
            final(self).same_config(*old(self)),
            final(self).entries@.len() <= final(self).max_entries,
            ({
                let pushed = entries_view(old(self).entries@).push(entry@);
                if pushed.len() > old(self).max_entries as int {
                    entries_view(final(self).entries@) == pushed.drop_first() && final(self).selected as int == (if old(self).selected > 0 {
                        old(self).selected - 1
                    } else {
                        0int
                    })
                } else {
                    entries_view(final(self).entries@) == pushed && final(self).selected == old(self).selected
                }
            }),
    {
        let ghost pre = self.entries@;
        self.entries.push_back(entry);
        proof {
            assert(entries_view(self.entries@) =~= entries_view(pre).push(entry@));
        }
        if self.entries.len() > self.max_entries {
            let ghost mid = self.entries@;
            self.entries.pop_front();
            proof {
                assert(entries_view(self.entries@) =~= entries_view(mid).drop_first());
                assert(entries_view(mid).drop_first() =~= entries_view(pre).push(
                    entry@,
                ).drop_first());
            }
            if self.selected > 0 {
                self.selected = self.selected - 1;
            }
        }
    }

    /// Clears the buffer and reseeds it from a snapshot read, then jumps
    /// to the newest record when following.
    pub fn load_entries(&mut self, fresh: Vec<LogEntry>)
        requires
            old(self).wf(),
        ensures
            final(self).wf(),
            final(self).same_config(*old(self)),
            entries_view(final(self).entries@) == buf_after(
                Seq::empty(),
                entries_view(fresh@),
                old(self).max_entries as int,
            ),
            final(self).selected as int == ({
                let buf = buf_after(
                    Seq::empty(),
                    entries_view(fresh@),
                    old(self).max_entries as int,
                );
                if old(self).follow_mode && buf.len() > 0 {
                    buf.len() - 1
                } else {
                    sel_after(Seq::empty(), entries_view(fresh@), old(self).max_entries as int, 0)
                }
            }),
            stamps_sorted(entries_view(fresh@)) ==> stamps_sorted(
                entries_view(final(self).entries@),
            ),
    {
        let ghost freshv = entries_view(fresh@);
        let ghost maxi = self.max_entries as int;
        self.entries.clear();
        self.selected = 0;
        proof {
            assert(entries_view(self.entries@) =~= Seq::empty());
        }
        self.append_all(fresh);
        if self.follow_mode {
            self.scroll_to_bottom();
        }
        proof {
            if stamps_sorted(freshv) {
                lemma_buf_after_sorted(Seq::empty(), freshv, maxi);
            }
        }
    }

    /// Appends a batch of records in order.
    fn append_all(&mut self, fresh: Vec<LogEntry>)
        requires
            old(self).wf(),
        ensures
            final(self).wf(),
            final(self).same_config(*old(self)),
            entries_view(final(self).entries@) == buf_after(
                entries_view(old(self).entries@),
                entries_view(fresh@),
                old(self).max_entries as int,
            ),
            final(self).selected as int == sel_after(
                entries_view(old(self).entries@),
                entries_view(fresh@),
                old(self).max_entries as int,
                old(self).selected as int,
            ),
    {
        let ghost buf0 = entries_view(old(self).entries@);
        let ghost sel0 = old(self).selected as int;
        let ghost maxi = old(self).max_entries as int;
        let ghost orig = fresh@;
        let ghost full = entries_view(fresh@);
        let mut fresh = fresh;
        while fresh.len() > 0
            invariant
                self.wf(),
                self.same_config(*old(self)),
                fresh@.len() <= orig.len(),
                fresh@ == orig.subrange(orig.len() - fresh@.len(), orig.len() as int),
                full == entries_view(orig),
                maxi == self.max_entries as int,
                entries_view(self.entries@) == buf_after(
                    buf0,
                    full.subrange(0, orig.len() - fresh@.len()),
                    maxi,
                ),
                self.selected as int == sel_after(
                    buf0,
                    full.subrange(0, orig.len() - fresh@.len()),
                    maxi,
                    sel0,
                ),
            decreases fresh@.len(),
        {
            let ghost i = orig.len() - fresh@.len();
            let e = fresh.remove(0);
            proof {
                assert(e == orig[i]);
                assert(fresh@ =~= orig.subrange(i + 1, orig.len() as int));
                let pre = full.subrange(0, i);
                let cur = full.subrange(0, i + 1);
                assert(cur.drop_last() =~= pre);
                assert(cur.last() == e@);
            }
            self.add_entry(e);
        }
        proof {
            assert(full.subrange(0, orig.len() as int) =~= full);
        }
    }

    /// Appends the records of one incremental poll, unless paused; when
    /// following, a poll that grew the buffer jumps to the newest record.
    pub fn refresh(&mut self, fresh: Vec<LogEntry>)
        requires
            old(self).wf(),
        ensures
            final(self).wf(),
            final(self).same_config(*old(self)),
            old(self).paused ==> *final(self) == *old(self),
            !old(self).paused ==> {
                let buf = buf_after(
                    entries_view(old(self).entries@),
                    entries_view(fresh@),
                    old(self).max_entries as int,
                );
                &&& entries_view(final(self).entries@) == buf
                &&& final(self).selected as int == (if old(self).follow_mode && buf.len()
                    > old(self).entries@.len() {
                    buf.len() - 1
                } else {
                    sel_after(
                        entries_view(old(self).entries@),
                        entries_view(fresh@),
                        old(self).max_entries as int,
                        old(self).selected as int,
                    )
                })
            },
            (stamps_sorted(entries_view(old(self).entries@)) && stamps_sorted(entries_view(fresh@))
                && (old(self).entries@.len() > 0 ==> forall|k: int|
                0 <= k < fresh@.len() ==> (#[trigger] entries_view(fresh@)[k]).timestamp_micros
                    > last_stamp(entries_view(old(self).entries@)))) ==> stamps_sorted(
                entries_view(final(self).entries@),
            ),
    {
        let ghost buf0 = entries_view(self.entries@);
        let ghost freshv = entries_view(fresh@);
        let ghost maxi = self.max_entries as int;
        if self.paused {
            return ;
        }
        let old_len = self.entries.len();
        self.append_all(fresh);
        if self.follow_mode && !self.paused && self.entries.len() > old_len {
            self.scroll_to_bottom();
        }
        proof {
            if stamps_sorted(buf0) && stamps_sorted(freshv) && (buf0.len() > 0 ==> forall|k: int|
                0 <= k < freshv.len() ==> (#[trigger] freshv[k]).timestamp_micros > last_stamp(
                    buf0,
                )) {
                lemma_buf_after_sorted(buf0, freshv, maxi);
            }
        }
    }

    /// Moves the selection up one record and leaves follow mode.
    pub fn move_up(&mut self)
        requires
            old(self).wf(),
        ensures
            final(self).wf(),
            final(self).entries@ == old(self).entries@,
            old(self).selected > 0 ==> final(self).selected == old(self).selected - 1 && !final(self).follow_mode,
            old(self).selected == 0 ==> *final(self) == *old(self),
    {
        if self.selected > 0 {
            self.selected = self.selected - 1;
            self.follow_mode = false;
        }
    }

    /// Moves the selection down one record; reaching the newest record
    /// re-enters follow mode.
    pub fn move_down(&mut self)
        requires
            old(self).wf(),
        ensures
            final(self).wf(),
            final(self).entries@ == old(self).entries@,
            old(self).selected + 1 < old(self).entries@.len() ==> final(self).selected == old(self).selected + 1 && (final(self).follow_mode == (final(self).selected + 1
                == old(self).entries@.len() || old(self).follow_mode)),
            old(self).selected + 1 >= old(self).entries@.len() ==> *final(self) == *old(self),
    {
        if self.selected + 1 < self.entries.len() {
            self.selected = self.selected + 1;
            if self.selected == self.entries.len() - 1 {
                self.follow_mode = true;
            }
        }
    }

    /// Moves the selection up one page and leaves follow mode.
    pub fn page_up(&mut self)
        requires
            old(self).wf(),
        ensures
            final(self).wf(),
            final(self).entries@ == old(self).entries@,
            final(self).selected as int == (if old(self).selected >= 10 {
                old(self).selected - 10
            } else {
                0int
            }),
            !final(self).follow_mode,
    {
        if self.selected >= 10 {
            self.selected = self.selected - 10;
        } else {
            self.selected = 0;
        }
        self.follow_mode = false;
    }

    /// Moves the selection down one page, clamped to the newest record;
    /// reaching it re-enters follow mode.
    pub fn page_down(&mut self)
        requires
            old(self).wf(),
        ensures
            final(self).wf(),
            final(self).entries@ == old(self).entries@,
            ({
                let len1 = if old(self).entries@.len() > 0 {
                    old(self).entries@.len() - 1
                } else {
                    0int
                };
                &&& final(self).selected as int == (if old(self).selected + 10 <= len1 {
                    old(self).selected + 10
                } else {
                    len1
                })
                &&& (final(self).follow_mode == (final(self).selected as int == len1 || old(self).follow_mode))
            }),
    {
        let len = self.entries.len();
        let len1 = if len > 0 {
            len - 1
        } else {
            0
        };
        if self.selected < len1 && len1 - self.selected > 10 {
            self.selected = self.selected + 10;
        } else {
            self.selected = len1;
        }
        if self.selected == len1 {
            self.follow_mode = true;
        }
    }

    /// Jumps the selection to the newest record.
    pub fn scroll_to_bottom(&mut self)
        requires
            old(self).wf(),
        ensures
            final(self).wf(),
            final(self).entries@ == old(self).entries@,
            final(self).same_config(*old(self)),
            old(self).entries@.len() > 0 ==> final(self).selected as int == old(self).entries@.len() - 1,
            old(self).entries@.len() == 0 ==> *final(self) == *old(self),
    {
        if self.entries.len() > 0 {
            self.selected = self.entries.len() - 1;
        }
    }

    /// Suspends or resumes polling; the buffer stays as it is.
    pub fn toggle_pause(&mut self)
        requires
            old(self).wf(),
        ensures
            final(self).wf(),
            final(self).paused == !old(self).paused,
            final(self).entries@ == old(self).entries@,
            final(self).selected == old(self).selected,
            final(self).follow_mode == old(self).follow_mode,
            final(self).max_entries == old(self).max_entries,
            final(self).filter_unit == old(self).filter_unit,
    {
        self.paused = !self.paused;
    }

    /// Flips follow mode; entering it jumps to the newest record.
    pub fn toggle_follow(&mut self)
        requires
            old(self).wf(),
        ensures
            final(self).wf(),
            final(self).follow_mode == !old(self).follow_mode,
            final(self).entries@ == old(self).entries@,
            final(self).paused == old(self).paused,
            final(self).max_entries == old(self).max_entries,
            final(self).filter_unit == old(self).filter_unit,
            final(self).follow_mode && old(self).entries@.len() > 0 ==> final(self).selected as int == old(self).entries@.len() - 1,
            !final(self).follow_mode ==> final(self).selected == old(self).selected,
    {
        self.follow_mode = !self.follow_mode;
        if self.follow_mode {
            self.scroll_to_bottom();
        }
    }

    /// Discards every held record.
    pub fn clear(&mut self)
        requires
            old(self).wf(),
        ensures
            final(self).wf(),
            final(self).same_config(*old(self)),
            final(self).entries@.len() == 0,
            final(self).selected == 0usize,
    {
        self.entries.clear();
        self.selected = 0;
    }

    /// The cursor for the next incremental poll: the newest held record's
    /// timestamp (zero for an empty buffer), or nothing while paused.
    pub fn poll_cursor(&self) -> (r: Option<u64>)
        requires
            self.wf(),
        ensures
            self.paused ==> r is None,
            !self.paused ==> r is Some && r->Some_0 as int == last_stamp(
                entries_view(self.entries@),
            ),
    {
        if self.paused {
            return None;
        }
        let len = self.entries.len();
        if len == 0 {
            Some(0)
        } else {
            Some(self.entries[len - 1].timestamp_micros)
        }
    }
}


} // verus!
