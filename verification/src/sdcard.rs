//! The CSV temperature log on the SD card: the line it appends, the tail of it
//! that the daily graph reads back, and the card's health state.
use vstd::prelude::*;
use crate::rtc::{
    DateTime, TZ_OFFSET_SECS, local_datetime_spec, local_secs_of_unix, parse_local_date,
    parse_local_time, unix_from_local_spec, unix_from_local_str,
};
use crate::calendar::{
    civil_from_days_spec, days_from_civil, is_valid_date, lemma_civil_from_days_spec_valid,
    lemma_year_from_epoch,
};
use crate::decimal::{lemma_zero_padded_width, pow10, push_zero_padded, zero_padded};
use crate::daily_history::BUCKETS;

verus! {

/// Name of the log file in the card's root directory.
pub const LOG_FILE: &'static str = "TEMPLOG.CSV";

/// The first line of a new log file.
pub const CSV_HEADER: &'static str = "Date,Time,TemperatureC,PressureHPa\n";

/// Bytes at the end of the log that the daily graph reads.
pub const TAIL_WINDOW_BYTES: u32 = 3_500_000;

/// Longest line, in bytes, that the reader keeps; longer lines are cut.
pub const LINE_CAPACITY: usize = 96;

/// The fixed-capacity vector of the `heapless` crate.
#[verifier::external_type_specification]
#[verifier::external_body]
#[verifier::reject_recursive_types(T)]
pub struct ExHeaplessVec<T, const N: usize>(heapless::Vec<T, N>);

/// The bytes that a line buffer holds, in order.
pub uninterp spec fn line_buf_contents(v: heapless::Vec<u8, 96>) -> Seq<u8>;

/// `heapless::Vec::new`: an empty vector.
#[verifier::external_body]
fn line_buf_new() -> (v: heapless::Vec<u8, 96>)
    ensures
        line_buf_contents(v) == Seq::<u8>::empty(),
{
    heapless::Vec::new()
}

/// `heapless::Vec::push`: appends the byte while fewer than 96 are held,
/// else hands it back in `Err` and leaves the vector as it was; it never panics.
#[verifier::external_body]
fn line_buf_push(v: &mut heapless::Vec<u8, 96>, b: u8) -> (r: Result<(), u8>)
    ensures
        line_buf_contents(*old(v)).len() < 96 ==> r is Ok,
        line_buf_contents(*old(v)).len() < 96 ==> line_buf_contents(*final(v)) == line_buf_contents(*old(v)).push(b),
        line_buf_contents(*old(v)).len() >= 96 ==> (r matches Err(x) && x == b),
        line_buf_contents(*old(v)).len() >= 96 ==> line_buf_contents(*final(v)) == line_buf_contents(*old(v)),
    no_unwind
{
    v.push(b)
}

/// `heapless::Vec::clear`: removes every element; it never panics.
#[verifier::external_body]
fn line_buf_clear(v: &mut heapless::Vec<u8, 96>)
    ensures
        line_buf_contents(*final(v)) == Seq::<u8>::empty(),
    no_unwind
{
    v.clear()
}

/// `heapless::Vec::as_slice`: the elements held, in order.
#[verifier::external_body]
fn line_buf_as_slice(v: &heapless::Vec<u8, 96>) -> (s: &[u8])
    ensures
        s@ == line_buf_contents(*v),
{
    v.as_slice()
}

/// Splits the bytes of the log's tail into lines: drops '\r', keeps at most
/// `LINE_CAPACITY` bytes of a line, and can drop the first line, which is cut
/// when reading starts in the middle of the file.
pub struct LineReader {
    line: heapless::Vec<u8, 96>,
    skip_current_line: bool,
}

/// The state of a `LineReader`: the bytes of the unfinished line, and whether
/// that line will be dropped.
pub struct LineReaderView {
    pub pending: Seq<u8>,
    pub skipping: bool,
}

impl View for LineReader {
    type V = LineReaderView;

    closed spec fn view(&self) -> LineReaderView {
        LineReaderView { pending: line_buf_contents(self.line), skipping: self.skip_current_line }
    }
}

/// One byte through the line reader: the next state, and the line completed by it.
pub open spec fn line_step(st: LineReaderView, b: u8) -> (LineReaderView, Option<Seq<u8>>) {
    if b == 10u8 {
        (
            LineReaderView { pending: Seq::empty(), skipping: false },
            if st.skipping { None } else { Some(st.pending) },
        )
    } else if b == 13u8 {
        (st, None)
    } else if st.pending.len() < LINE_CAPACITY {
        (LineReaderView { pending: st.pending.push(b), skipping: st.skipping }, None)
    } else {
        (st, None)
    }
}

/// A run of bytes through the line reader: the final state and the lines
/// completed, in order.
pub open spec fn line_run(st: LineReaderView, bytes: Seq<u8>) -> (LineReaderView, Seq<Seq<u8>>)
    decreases bytes.len(),
{
    if bytes.len() == 0 {
        (st, Seq::empty())
    } else {
        let prev = line_run(st, bytes.drop_last());
        let (next, out) = line_step(prev.0, bytes.last());
        (
            next,
            match out {
                Some(l) => prev.1.push(l),
                None => prev.1,
            },
        )
    }
}

impl LineReader {
    /// The unfinished line never holds more than `LINE_CAPACITY` bytes.
    #[verifier::type_invariant]
    spec fn within_capacity(&self) -> bool {
        line_buf_contents(self.line).len() <= LINE_CAPACITY
    }

    /// A reader at the start of a line; `skip_first_line` drops that line.
    pub fn new(skip_first_line: bool) -> (r: LineReader)
        ensures
            r@.pending == Seq::<u8>::empty(),
            r@.skipping == skip_first_line,
    {
        LineReader { line: line_buf_new(), skip_current_line: skip_first_line }
    }

    /// Takes one byte; returns the line that a '\n' completes, unless it is dropped.
    pub fn push_byte(&mut self, b: u8) -> (r: Option<Vec<u8>>)
        ensures
            final(self)@ == line_step(old(self)@, b).0,
            r matches Some(l) ==> line_step(old(self)@, b).1 == Some(l@),
            r is None ==> line_step(old(self)@, b).1 is None,
            final(self)@.pending.len() <= LINE_CAPACITY,
    {
        proof {
            use_type_invariant(&*self);
        }
        if b == 10u8 {
            let out = if !self.skip_current_line {
                Some(vstd::slice::slice_to_vec(line_buf_as_slice(&self.line)))
            } else {
                None
            };
            self.skip_current_line = false;
            line_buf_clear(&mut self.line);
            out
        } else {
            if b != 13u8 {
                let _ = line_buf_push(&mut self.line, b);
            }
            None
        }
    }

    /// Takes a chunk of bytes; returns the lines completed in it, in order.
    pub fn feed(&mut self, chunk: &[u8]) -> (lines: Vec<Vec<u8>>)
        ensures
            final(self)@.pending.len() <= LINE_CAPACITY,
            final(self)@ == line_run(old(self)@, chunk@).0,
            lines@.map_values(|l: Vec<u8>| l@) == line_run(old(self)@, chunk@).1,
    {
        proof {
            use_type_invariant(&*self);
        }
        let mut lines: Vec<Vec<u8>> = Vec::new();
        let mut i: usize = 0;
        while i < chunk.len()
            invariant
                i <= chunk.len(),
                self@.pending.len() <= LINE_CAPACITY,
                self@ == line_run(old(self)@, chunk@.subrange(0, i as int)).0,
                lines@.map_values(|l: Vec<u8>| l@) == line_run(
                    old(self)@,
                    chunk@.subrange(0, i as int),
                ).1,
            decreases chunk.len() - i,
        {
            proof {
                assert(chunk@.subrange(0, i + 1).drop_last() =~= chunk@.subrange(0, i as int));
            }
            match self.push_byte(chunk[i]) {
                Some(l) => {
                    lines.push(l);
                },
                None => {},
            }
            i = i + 1;
            proof {
                assert(lines@.map_values(|l: Vec<u8>| l@) =~= line_run(
                    old(self)@,
                    chunk@.subrange(0, i as int),
                ).1);
            }
        }
        proof {
            assert(chunk@.subrange(0, chunk.len() as int) =~= chunk@);
        }
        lines
    }
}


/// The date and time fields that open each log line, "DD-MM-YYYY,HH:MM:SS"
/// (each number zero-padded as `{:02}` and `{:04}` write it).
pub open spec fn log_timestamp_text(dt: DateTime) -> Seq<u8> {
    zero_padded(dt.day as nat, 2) + seq![45u8] + zero_padded(dt.month as nat, 2) + seq![45u8]
        + zero_padded(dt.year as nat, 4) + seq![44u8] + zero_padded(dt.hour as nat, 2) + seq![58u8]
        + zero_padded(dt.minute as nat, 2) + seq![58u8] + zero_padded(dt.second as nat, 2)
}

/// The date and time fields of the log line of a sample taken at `dt`; the
/// line continues with ",<temperature>,<pressure>\n".
pub fn format_log_timestamp(dt: &DateTime) -> (text: Vec<u8>)
    ensures
        text@ == log_timestamp_text(*dt),
{
    let mut out: Vec<u8> = Vec::new();
    push_zero_padded(&mut out, dt.day as u64, 2);
    out.push(45u8);
    push_zero_padded(&mut out, dt.month as u64, 2);
    out.push(45u8);
    push_zero_padded(&mut out, dt.year as u64, 4);
    out.push(44u8);
    push_zero_padded(&mut out, dt.hour as u64, 2);
    out.push(58u8);
    push_zero_padded(&mut out, dt.minute as u64, 2);
    out.push(58u8);
    push_zero_padded(&mut out, dt.second as u64, 2);
    proof {
        assert(out@ =~= log_timestamp_text(*dt));
    }
    out
}

/// Where the graph starts reading the log: the last `TAIL_WINDOW_BYTES` bytes,
/// whose first line is cut (and dropped) unless reading starts at offset 0.
pub fn tail_window_start(file_len: u32) -> (r: (u32, bool))
    ensures
        r.0 == (if file_len >= TAIL_WINDOW_BYTES { file_len - TAIL_WINDOW_BYTES } else { 0 }),
        r.1 == (r.0 != 0),
{
    let start = file_len.saturating_sub(TAIL_WINDOW_BYTES);
    (start, start != 0)
}

/// `core::str::from_utf8(..).is_ok()`: whether the bytes are valid UTF-8.
#[verifier::external_body]
fn is_valid_utf8(bytes: &[u8]) -> (r: bool)
    ensures
        r == vstd::utf8::valid_utf8(bytes@),
{
    core::str::from_utf8(bytes).is_ok()
}

/// Index of the first ',' at or after `i`, or the length when there is none.
pub open spec fn next_comma(s: Seq<u8>, i: int) -> int
    decreases s.len() - i,
{
    if i >= s.len() {
        s.len() as int
    } else if s[i] == 44u8 {
        i
    } else {
        next_comma(s, i + 1)
    }
}

fn find_comma(s: &[u8], from: usize) -> (r: usize)
    requires
        from <= s.len(),
    ensures
        r == next_comma(s@, from as int),
        from <= r <= s.len(),
    decreases s.len() - from,
{
    if from >= s.len() {
        s.len()
    } else if s[from] == 44u8 {
        from
    } else {
        find_comma(s, from + 1)
    }
}

/// The sample that a log line adds to the daily graph: the bucket of the
/// half hour it was logged in, counted back from the half hour `now_key`
/// (bucket `BUCKETS - 1` is the current one), and its temperature field.
/// A line has the form "DD-MM-YYYY,HH:MM:SS,temperature,pressure": `None` when
/// it is not UTF-8, is cut before its pressure field (fewer than four fields),
/// carries no valid date and time, lies in a later half hour, or is 24 hours
/// old or more.
pub open spec fn line_sample_spec(line: Seq<u8>, now_key: u64) -> Option<(int, Seq<u8>)> {
    if !vstd::utf8::valid_utf8(line) {
        None
    } else {
        let c1 = next_comma(line, 0);
        let c2 = next_comma(line, c1 + 1);
        let c3 = next_comma(line, c2 + 1);
        if c1 >= line.len() || c2 >= line.len() || c3 >= line.len() {
            None
        } else {
            match unix_from_local_spec(line.subrange(0, c1), line.subrange(c1 + 1, c2)) {
                None => None,
                Some(u) => {
                    let key = u / 1800;
                    if now_key < key {
                        None
                    } else {
                        let offset = now_key - key;
                        if offset >= BUCKETS {
                            None
                        } else {
                            Some((BUCKETS - 1 - offset, line.subrange(c2 + 1, c3)))
                        }
                    }
                },
            }
        }
    }
}

/// A line of the log's tail that falls into the daily graph.
pub struct LineSample {
    /// Bucket of the graph, `0..BUCKETS`.
    pub bucket: usize,
    /// The temperature field, as written.
    pub temperature: Vec<u8>,
}

/// Reads a line of the log for the daily graph (see `line_sample_spec`).
pub fn line_sample(line: &[u8], now_key: u64) -> (r: Option<LineSample>)
    ensures
        r matches Some(s) ==> line_sample_spec(line@, now_key) == Some(
            (s.bucket as int, s.temperature@),
        ),
        r is None ==> line_sample_spec(line@, now_key) is None,
{
    if !is_valid_utf8(line) {
        return None;
    }
    let c1 = find_comma(line, 0);
    if c1 >= line.len() {
        return None;
    }
    let c2 = find_comma(line, c1 + 1);
    if c2 >= line.len() {
        return None;
    }
    let c3 = find_comma(line, c2 + 1);
    if c3 >= line.len() {
        return None;
    }
    let date = vstd::slice::slice_subrange(line, 0, c1);
    let time = vstd::slice::slice_subrange(line, c1 + 1, c2);
    let sample_unix = match unix_from_local_str(date, time) {
        Some(u) => u,
        None => return None,
    };
    let sample_key = sample_unix / 1800;
    if now_key < sample_key {
        return None;
    }
    let offset = now_key - sample_key;
    if offset >= BUCKETS as u64 {
        return None;
    }
    let bucket = BUCKETS - 1 - offset as usize;
    let temperature = vstd::slice::slice_to_vec(vstd::slice::slice_subrange(line, c2 + 1, c3));
    Some(LineSample { bucket, temperature })
}

/// The log's placeholder clock for file dates: every file is stamped with
/// the FAT epoch.
#[derive(Default)]
pub struct DummyTimesource;

/// A FAT directory-entry timestamp, field by field.
#[derive(Clone, Copy, Debug, PartialEq, Eq, Structural)]
pub struct FatTimestamp {
    pub year_since_1970: u8,
    pub zero_indexed_month: u8,
    pub zero_indexed_day: u8,
    pub hours: u8,
    pub minutes: u8,
    pub seconds: u8,
}

impl DummyTimesource {
    /// The timestamp given to files: 1970-01-01 00:00:00.
    pub fn get_timestamp(&self) -> (t: FatTimestamp)
        ensures
            t.year_since_1970 == 0 && t.zero_indexed_month == 0 && t.zero_indexed_day == 0,
            t.hours == 0 && t.minutes == 0 && t.seconds == 0,
    {
        FatTimestamp {
            year_since_1970: 0,
            zero_indexed_month: 0,
            zero_indexed_day: 0,
            hours: 0,
            minutes: 0,
            seconds: 0,
        }
    }
}

/// What the logger reports after a write attempt.
#[derive(Clone, Copy, Debug, PartialEq, Eq, Structural)]
pub enum CardNotice {
    /// Nothing changed.
    Quiet,
    /// A write succeeded after the card had failed.
    Reconnected,
    /// A write failed after the card had worked.
    WriteFailed,
}

/// The card's state after a write attempt, and what to do about it.
#[derive(Clone, Copy, Debug, PartialEq, Eq, Structural)]
pub struct CardUpdate {
    /// Whether the card works now.
    pub card_ok: bool,
    /// The change to report, once per change, so a removed card does not flood the log.
    pub notice: CardNotice,
    /// Whether to mark the card uninitialised, so the next write starts afresh.
    pub reset_card: bool,
}

/// The card's health after a write: it works iff the write succeeded; a
/// change of health is reported once; every failed write resets the card.
pub fn card_state_after_write(card_ok: bool, write_ok: bool) -> (r: CardUpdate)
    ensures
        r.card_ok == write_ok,
        r.reset_card == !write_ok,
        r.notice == (if write_ok && !card_ok {
            CardNotice::Reconnected
        } else if !write_ok && card_ok {
            CardNotice::WriteFailed
        } else {
            CardNotice::Quiet
        }),
{
    if write_ok {
        CardUpdate {
            card_ok: true,
            notice: if !card_ok { CardNotice::Reconnected } else { CardNotice::Quiet },
            reset_card: false,
        }
    } else {
        CardUpdate {
            card_ok: false,
            notice: if card_ok { CardNotice::WriteFailed } else { CardNotice::Quiet },
            reset_card: true,
        }
    }
}


proof fn lemma_small_unix_cast(u: u64)
    requires
        u <= 0x7fff_ffff_ffff_ffffu64,
    ensures
        (u as i64) as int == u as int,
{
    assert((u as i64) as int == u as int) by (bit_vector)
        requires
            u <= 0x7fff_ffff_ffff_ffffu64;
}

/// The shape of a log timestamp whose fields fit their widths: 19 ASCII
/// bytes, a comma at index 10 and nowhere else, and each field zero-padded
/// in its place.
proof fn lemma_log_timestamp_text_shape(dt: DateTime)
    requires
        dt.day < 100,
        dt.month < 100,
        dt.year < 10000,
        dt.hour < 100,
        dt.minute < 100,
        dt.second < 100,
    ensures
        ({
            let text = log_timestamp_text(dt);
            &&& text.len() == 19
            &&& text[10] == 44u8
            &&& forall|i: int| 0 <= i < 19 ==> (#[trigger] text[i] < 128 && (i != 10 ==> text[i] != 44u8))
            &&& parse_local_date(text.subrange(0, 10)) == (if is_valid_date(
                dt.year as int,
                dt.month as int,
                dt.day as int,
            ) {
                Some((dt.year as int, dt.month as int, dt.day as int))
            } else {
                None
            })
            &&& parse_local_time(text.subrange(11, 19)) == (if dt.hour < 24 && dt.minute < 60
                && dt.second < 60 {
                Some((dt.hour as int, dt.minute as int, dt.second as int))
            } else {
                None
            })
        }),
{
    reveal_with_fuel(pow10, 5);
    lemma_zero_padded_width(dt.day as nat, 2);
    lemma_zero_padded_width(dt.month as nat, 2);
    lemma_zero_padded_width(dt.year as nat, 4);
    lemma_zero_padded_width(dt.hour as nat, 2);
    lemma_zero_padded_width(dt.minute as nat, 2);
    lemma_zero_padded_width(dt.second as nat, 2);
    let text = log_timestamp_text(dt);
    let date = text.subrange(0, 10);
    let time = text.subrange(11, 19);
    assert(date.subrange(0, 2) =~= zero_padded(dt.day as nat, 2));
    assert(date.subrange(3, 5) =~= zero_padded(dt.month as nat, 2));
    assert(date.subrange(6, 10) =~= zero_padded(dt.year as nat, 4));
    assert(time.subrange(0, 2) =~= zero_padded(dt.hour as nat, 2));
    assert(time.subrange(3, 5) =~= zero_padded(dt.minute as nat, 2));
    assert(time.subrange(6, 8) =~= zero_padded(dt.second as nat, 2));
    assert forall|i: int| 0 <= i < 19 implies (#[trigger] text[i] < 128 && (i != 10 ==> text[i] != 44u8)) by {
        if 0 <= i < 2 {
            assert(text[i] == zero_padded(dt.day as nat, 2)[i]);
        } else if 3 <= i < 5 {
            assert(text[i] == zero_padded(dt.month as nat, 2)[i - 3]);
        } else if 6 <= i < 10 {
            assert(text[i] == zero_padded(dt.year as nat, 4)[i - 6]);
        } else if 11 <= i < 13 {
            assert(text[i] == zero_padded(dt.hour as nat, 2)[i - 11]);
        } else if 14 <= i < 16 {
            assert(text[i] == zero_padded(dt.minute as nat, 2)[i - 14]);
        } else if 17 <= i < 19 {
            assert(text[i] == zero_padded(dt.second as nat, 2)[i - 17]);
        }
    }
}

/// What the log writes, it reads back: the date and time fields logged for a
/// sample at Unix time `unix_secs` give that Unix time again, for every time
/// from the epoch whose local year has four digits.
pub proof fn lemma_log_timestamp_round_trip(unix_secs: u64)
    requires
        unix_secs <= i64::MAX - TZ_OFFSET_SECS,
        civil_from_days_spec((unix_secs + TZ_OFFSET_SECS) / 86400).0 <= 9999,
    ensures
        ({
            let text = log_timestamp_text(local_datetime_spec(local_secs_of_unix(unix_secs)));
            &&& text.len() == 19
            &&& text[10] == 44u8
            &&& is_ascii(text)
            &&& forall|i: int| 0 <= i < 19 && i != 10 ==> #[trigger] text[i] != 44u8
            &&& unix_from_local_spec(text.subrange(0, 10), text.subrange(11, 19)) == Some(
                unix_secs as int,
            )
        }),
{
    lemma_small_unix_cast(unix_secs);
    let secs = unix_secs + TZ_OFFSET_SECS;
    assert(local_secs_of_unix(unix_secs) == secs);
    let days = secs / 86400;
    let rem = secs % 86400;
    vstd::arithmetic::div_mod::lemma_fundamental_div_mod(secs, 86400);
    lemma_civil_from_days_spec_valid(days);
    let ymd = civil_from_days_spec(days);
    lemma_year_from_epoch(ymd.0, ymd.1, ymd.2);
    let dt = local_datetime_spec(secs);
    assert(dt.year as int == ymd.0 && dt.month as int == ymd.1 && dt.day as int == ymd.2);
    assert(dt.hour as int == rem / 3600 && dt.minute as int == (rem % 3600) / 60
        && dt.second as int == rem % 60);
    lemma_log_timestamp_text_shape(dt);
    let text = log_timestamp_text(dt);
    let date = text.subrange(0, 10);
    let time = text.subrange(11, 19);
    assert(parse_local_date(date) == Some((ymd.0, ymd.1, ymd.2)));
    assert(parse_local_time(time) == Some((rem / 3600, (rem % 3600) / 60, rem % 60)));
    assert(days_from_civil(ymd.0, ymd.1, ymd.2) * 86400 + (rem / 3600) * 3600 + ((rem % 3600) / 60)
        * 60 + rem % 60 == secs);
}


/// Every byte is ASCII.
pub open spec fn is_ascii(s: Seq<u8>) -> bool {
    forall|i: int| 0 <= i < s.len() ==> #[trigger] s[i] < 128
}

proof fn lemma_ascii_is_utf8(s: Seq<u8>)
    requires
        is_ascii(s),
    ensures
        vstd::utf8::valid_utf8(s),
{
    assert(s.subrange(0, 0) =~= Seq::<u8>::empty());
    assert(vstd::utf8::partial_valid_utf8(s, 0));
    assert forall|i: int| 0 <= 0 <= i < s.len() <= s.len() implies #[trigger]
        vstd::utf8::is_leading_byte_width_1(s[i]) by {}
    vstd::utf8::partial_valid_utf8_extend_ascii_block(s, 0, s.len() as int);
    assert(s.subrange(0, s.len() as int) =~= s);
}

proof fn lemma_next_comma_at(s: Seq<u8>, i: int, j: int)
    requires
        0 <= i <= j < s.len(),
        s[j] == 44u8,
        forall|k: int| i <= k < j ==> s[k] != 44u8,
    ensures
        next_comma(s, i) == j,
    decreases j - i,
{
    if i < j {
        lemma_next_comma_at(s, i + 1, j);
    }
}

/// A line that the log wrote for a sample at `unix_secs` is read back, for
/// 24 hours, into the bucket of the half hour it was written in, together
/// with its temperature text.
pub proof fn lemma_logged_line_read_back(
    unix_secs: u64,
    temperature: Seq<u8>,
    pressure: Seq<u8>,
    now_key: u64,
)
    requires
        unix_secs <= i64::MAX - TZ_OFFSET_SECS,
        civil_from_days_spec((unix_secs + TZ_OFFSET_SECS) / 86400).0 <= 9999,
        is_ascii(temperature),
        is_ascii(pressure),
        forall|i: int| 0 <= i < temperature.len() ==> temperature[i] != 44u8,
        unix_secs / 1800 <= now_key < unix_secs / 1800 + BUCKETS,
    ensures
        ({
            let text = log_timestamp_text(local_datetime_spec(local_secs_of_unix(unix_secs)));
            let line = text + seq![44u8] + temperature + seq![44u8] + pressure;
            line_sample_spec(line, now_key) == Some(
                (BUCKETS - 1 - (now_key - unix_secs / 1800), temperature),
            )
        }),
{
    lemma_log_timestamp_round_trip(unix_secs);
    let dt = local_datetime_spec(local_secs_of_unix(unix_secs));
    let text = log_timestamp_text(dt);
    let line = text + seq![44u8] + temperature + seq![44u8] + pressure;
    assert(is_ascii(line)) by {
        assert forall|i: int| 0 <= i < line.len() implies #[trigger] line[i] < 128 by {
            if i < 19 {
                assert(line[i] == text[i]);
            } else if 20 <= i < 20 + temperature.len() {
                assert(line[i] == temperature[i - 20]);
            } else if i > 20 + temperature.len() {
                assert(line[i] == pressure[i - 21 - temperature.len()]);
            }
        }
    }
    lemma_ascii_is_utf8(line);
    assert forall|k: int| 0 <= k < 10 implies line[k] != 44u8 by {
        assert(line[k] == text[k]);
    }
    lemma_next_comma_at(line, 0, 10);
    assert forall|k: int| 11 <= k < 19 implies line[k] != 44u8 by {
        assert(line[k] == text[k]);
    }
    lemma_next_comma_at(line, 11, 19);
    let c3: int = 20 + temperature.len() as int;
    assert forall|k: int| 20 <= k < c3 implies line[k] != 44u8 by {
        assert(line[k] == temperature[k - 20]);
    }
    assert(line[c3] == 44u8);
    lemma_next_comma_at(line, 20, c3);
    assert(line.subrange(0, 10) =~= text.subrange(0, 10));
    assert(line.subrange(11, 19) =~= text.subrange(11, 19));
    assert(line.subrange(20, c3) =~= temperature);
}


/// The lines of a byte stream: the raw text of each '\n'-terminated line, in
/// order, and the unfinished text after the last '\n'.
pub open spec fn split_lines(bytes: Seq<u8>) -> (Seq<Seq<u8>>, Seq<u8>)
    decreases bytes.len(),
{
    if bytes.len() == 0 {
        (Seq::empty(), Seq::empty())
    } else {
        let prev = split_lines(bytes.drop_last());
        if bytes.last() == 10u8 {
            (prev.0.push(prev.1), Seq::empty())
        } else {
            (prev.0, prev.1.push(bytes.last()))
        }
    }
}

/// The bytes of `raw` other than '\r'.
pub open spec fn without_cr(raw: Seq<u8>) -> Seq<u8>
    decreases raw.len(),
{
    if raw.len() == 0 {
        raw
    } else if raw.last() == 13u8 {
        without_cr(raw.drop_last())
    } else {
        without_cr(raw.drop_last()).push(raw.last())
    }
}

/// A line as the reader keeps it: without '\r', cut to `LINE_CAPACITY` bytes.
pub open spec fn kept_line(raw: Seq<u8>) -> Seq<u8> {
    let t = without_cr(raw);
    if t.len() > LINE_CAPACITY {
        t.subrange(0, LINE_CAPACITY as int)
    } else {
        t
    }
}

/// The lines that a reader gives for the complete lines `lines`: all of them,
/// less the first when it is skipped.
pub open spec fn lines_given(lines: Seq<Seq<u8>>, skip_first_line: bool) -> Seq<Seq<u8>> {
    let kept = if skip_first_line && lines.len() > 0 { lines.drop_first() } else { lines };
    kept.map_values(|l: Seq<u8>| kept_line(l))
}

/// The line reader splits a stream into its lines: fed any bytes from the
/// start of a line, it gives every '\n'-terminated line (less the first when
/// that one is skipped) without '\r' and cut to `LINE_CAPACITY` bytes, and
/// holds the unfinished rest the same way.
pub proof fn lemma_line_reader_splits(bytes: Seq<u8>, skip_first_line: bool)
    ensures
        ({
            let start = LineReaderView { pending: Seq::empty(), skipping: skip_first_line };
            let (lines, rest) = split_lines(bytes);
            let run = line_run(start, bytes);
            &&& run.0.pending == kept_line(rest)
            &&& run.0.skipping == (skip_first_line && lines.len() == 0)
            &&& run.1 == lines_given(lines, skip_first_line)
        }),
    decreases bytes.len(),
{
    let start = LineReaderView { pending: Seq::empty(), skipping: skip_first_line };
    if bytes.len() == 0 {
        assert(kept_line(Seq::<u8>::empty()) =~= Seq::<u8>::empty());
        assert(lines_given(Seq::empty(), skip_first_line) =~= Seq::empty());
    } else {
        let pre = bytes.drop_last();
        let b = bytes.last();
        lemma_line_reader_splits(pre, skip_first_line);
        let (lines0, rest0) = split_lines(pre);
        let prev = line_run(start, pre);
        if b == 10u8 {
            assert(kept_line(Seq::<u8>::empty()) =~= Seq::<u8>::empty());
            let lines1 = lines0.push(rest0);
            if skip_first_line && lines0.len() == 0 {
                assert(lines_given(lines1, skip_first_line) =~= lines_given(lines0, skip_first_line));
            } else if skip_first_line {
                assert(lines1.drop_first() =~= lines0.drop_first().push(rest0));
                assert(lines_given(lines1, skip_first_line) =~= lines_given(lines0, skip_first_line).push(
                    kept_line(rest0),
                ));
            } else {
                assert(lines_given(lines1, skip_first_line) =~= lines_given(lines0, skip_first_line).push(
                    kept_line(rest0),
                ));
            }
        } else {
            let rest1 = rest0.push(b);
            assert(rest1.drop_last() =~= rest0);
            let t0 = without_cr(rest0);
            if b == 13u8 {
                assert(without_cr(rest1) == t0);
            } else {
                assert(without_cr(rest1) == t0.push(b));
                if t0.len() >= LINE_CAPACITY {
                    assert(kept_line(rest1) =~= kept_line(rest0));
                } else {
                    assert(kept_line(rest1) =~= kept_line(rest0).push(b));
                }
            }
        }
    }
}


/// '\r' bytes make no difference to the reader: a stream and the same stream
/// without its '\r' bytes give the same lines and leave the same state.
pub proof fn lemma_line_reader_ignores_cr(st: LineReaderView, bytes: Seq<u8>)
    ensures
        line_run(st, bytes) == line_run(st, without_cr(bytes)),
    decreases bytes.len(),
{
    if bytes.len() > 0 {
        let pre = bytes.drop_last();
        lemma_line_reader_ignores_cr(st, pre);
        if bytes.last() != 13u8 {
            let w = without_cr(pre);
            assert(w.push(bytes.last()).drop_last() =~= w);
        }
    }
}

/// Two streams that differ only in '\r' bytes, such as a file with "\r\n"
/// line ends and the same file with "\n" ones, give the same lines.
pub proof fn lemma_line_reader_same_without_cr(st: LineReaderView, b1: Seq<u8>, b2: Seq<u8>)
    requires
        without_cr(b1) == without_cr(b2),
    ensures
        line_run(st, b1) == line_run(st, b2),
{
    lemma_line_reader_ignores_cr(st, b1);
    lemma_line_reader_ignores_cr(st, b2);
}

} // verus!
