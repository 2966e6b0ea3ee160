//! Decoding of one log line into its metadata.
use vstd::prelude::*;
use crate::text::{chars_of, string_of, find, find_from, skip_ws, as_index};

verus! {

/// The instant that an RFC 3339 timestamp names, in nanoseconds since the Unix epoch;
/// `None` when the text is no such timestamp or the instant does not fit in 64 bits.
pub uninterp spec fn rfc3339_nanos(s: Seq<char>) -> Option<i64>;

/// Relies on chrono's `DateTime::parse_from_str` with the `%+` format and on
/// `DateTime::timestamp_nanos_opt`: the result depends on the text alone.
#[verifier::external_body]
fn parse_timestamp(s: &str) -> (r: Option<i64>)
    ensures
        r == rfc3339_nanos(s@),
{
    match chrono::DateTime::parse_from_str(s, "%+") {
        Ok(t) => t.timestamp_nanos_opt(),
        Err(_) => None,
    }
}

/// Metadata of a log line.
pub struct LogMeta {
    /// First word of the line (`INFO`, `WARN`, `ERROR`, ...).
    pub category: String,
    /// Embedded timestamp, in nanoseconds since the Unix epoch.
    pub message_time: i64,
    /// Wall-clock time at which the line was read, in nanoseconds since the Unix epoch.
    pub system_time: i64,
    /// Text between the brackets that follow the timestamp.
    pub source: String,
    /// Everything after the closing bracket.
    pub message: String,
}

impl Clone for LogMeta {
    fn clone(&self) -> (r: LogMeta)
        ensures
            r@ == self@,
    {
        LogMeta {
            category: self.category.clone(),
            message_time: self.message_time,
            system_time: self.system_time,
            source: self.source.clone(),
            message: self.message.clone(),
        }
    }
}

/// Mathematical view of `LogMeta`.
pub struct LogMetaView {
    pub category: Seq<char>,
    pub message_time: i64,
    pub system_time: i64,
    pub source: Seq<char>,
    pub message: Seq<char>,
}

impl View for LogMeta {
    type V = LogMetaView;

    open spec fn view(&self) -> LogMetaView {
        LogMetaView {
            category: self.category@,
            message_time: self.message_time,
            system_time: self.system_time,
            source: self.source@,
            message: self.message@,
        }
    }
}

/// Positions of the parts of a line: category `[cat_start, cat_end)`, timestamp
/// `[time_start, time_end)`, source `[source_start, source_end)`; the message follows
/// `source_end + 1`.
#[derive(Clone, Copy, PartialEq, Eq, Structural, Debug)]
pub struct LineSpans {
    pub cat_start: usize,
    pub cat_end: usize,
    pub time_start: usize,
    pub time_end: usize,
    pub source_start: usize,
    pub source_end: usize,
}

pub open spec fn is_upper(c: char) -> bool {
    'A' <= c && c <= 'Z'
}

/// End of the run of upper-case letters starting at `i`.
pub open spec fn upper_end(s: Seq<char>, i: int) -> int
    decreases s.len() - i,
{
    if 0 <= i < s.len() && is_upper(s[i]) {
        upper_end(s, i + 1)
    } else {
        i
    }
}

/// End of the run of characters other than a space starting at `i`.
pub open spec fn word_end(s: Seq<char>, i: int) -> int
    decreases s.len() - i,
{
    if 0 <= i < s.len() && s[i] != ' ' {
        word_end(s, i + 1)
    } else {
        i
    }
}

/// The layout of a log line: optional leading white space, a category of four to six
/// upper-case letters, a space, a timestamp (no spaces), a space, `[`, a source tag up to
/// the first `]`, and the message after it. `None` when the line has another shape.
pub open spec fn line_spans(s: Seq<char>) -> Option<LineSpans> {
    let c0 = skip_ws(s, 0);
    let c1 = upper_end(s, c0);
    let t0 = c1 + 1;
    let t1 = word_end(s, t0);
    let s0 = t1 + 2;
    if 4 <= c1 - c0 <= 6 && c1 < s.len() && s[c1] == ' ' && t1 > t0 && t1 + 1 < s.len()
        && s[t1] == ' ' && s[t1 + 1] == '[' && find_from(s, seq![']'], s0) is Some {
        Some(LineSpans {
            cat_start: c0 as usize,
            cat_end: c1 as usize,
            time_start: t0 as usize,
            time_end: t1 as usize,
            source_start: s0 as usize,
            source_end: find_from(s, seq![']'], s0)->0 as usize,
        })
    } else {
        None
    }
}

/// The metadata of a line with spans `sp` whose timestamp reads as `time`.
pub open spec fn meta_of(s: Seq<char>, sp: LineSpans, time: i64, system_time: i64) -> LogMetaView {
    LogMetaView {
        category: s.subrange(sp.cat_start as int, sp.cat_end as int),
        message_time: time,
        system_time,
        source: s.subrange(sp.source_start as int, sp.source_end as int),
        message: s.subrange(sp.source_end + 1, s.len() as int),
    }
}

/// The timestamp text of a line with spans `sp`.
pub open spec fn time_text(s: Seq<char>, sp: LineSpans) -> Seq<char> {
    s.subrange(sp.time_start as int, sp.time_end as int)
}

pub proof fn lemma_upper_end_bounds(s: Seq<char>, i: int)
    requires
        0 <= i <= s.len(),
    ensures
        i <= upper_end(s, i) <= s.len(),
    decreases s.len() - i,
{
    if i < s.len() && is_upper(s[i]) {
        lemma_upper_end_bounds(s, i + 1);
    }
}

pub proof fn lemma_word_end_bounds(s: Seq<char>, i: int)
    requires
        0 <= i <= s.len(),
    ensures
        i <= word_end(s, i) <= s.len(),
    decreases s.len() - i,
{
    if i < s.len() && s[i] != ' ' {
        lemma_word_end_bounds(s, i + 1);
    }
}

/// The parts of a line lie in order inside it.
pub proof fn lemma_spans_in_line(s: Seq<char>)
    requires
        s.len() <= usize::MAX,
    ensures
        line_spans(s) matches Some(sp) ==> {
            &&& sp.cat_start <= sp.cat_end < sp.time_start <= sp.time_end
            &&& sp.time_end < sp.source_start <= sp.source_end < s.len()
        },
{
    crate::text::lemma_skip_ws_bounds(s, 0);
    let c0 = skip_ws(s, 0);
    lemma_upper_end_bounds(s, c0);
    let c1 = upper_end(s, c0);
    if c1 < s.len() {
        lemma_word_end_bounds(s, c1 + 1);
        let t1 = word_end(s, c1 + 1);
        crate::text::lemma_find_from_matches(s, seq![']'], t1 + 2);
    }
}

fn upper_end_exec(s: &Vec<char>, i: usize) -> (r: usize)
    requires
        i <= s@.len(),
    ensures
        r == upper_end(s@, i as int),
        i <= r <= s@.len(),
{
    let mut k = i;
    while k < s.len() && 'A' <= s[k] && s[k] <= 'Z'
        invariant
            i <= k <= s@.len(),
            upper_end(s@, k as int) == upper_end(s@, i as int),
        decreases s@.len() - k,
    {
        k = k + 1;
    }
    k
}

fn word_end_exec(s: &Vec<char>, i: usize) -> (r: usize)
    requires
        i <= s@.len(),
    ensures
        r == word_end(s@, i as int),
        i <= r <= s@.len(),
{
    let mut k = i;
    while k < s.len() && s[k] != ' '
        invariant
            i <= k <= s@.len(),
            word_end(s@, k as int) == word_end(s@, i as int),
        decreases s@.len() - k,
    {
        k = k + 1;
    }
    k
}

fn skip_ws_from(s: &Vec<char>, i: usize) -> (r: usize)
    requires
        i <= s@.len(),
    ensures
        r == skip_ws(s@, i as int),
        i <= r <= s@.len(),
{
    let mut k = i;
    while k < s.len() && is_space(s[k])
        invariant
            i <= k <= s@.len(),
            skip_ws(s@, k as int) == skip_ws(s@, i as int),
        decreases s@.len() - k,
    {
        k = k + 1;
    }
    k
}

fn is_space(c: char) -> (r: bool)
    ensures
        r == crate::text::is_ws(c),
{
    c == '\t' || c == '\n' || c == '\u{0B}' || c == '\u{0C}' || c == '\r' || c == ' '
        || c == '\u{85}' || c == '\u{A0}' || c == '\u{1680}' || ('\u{2000}' <= c && c <= '\u{200A}')
        || c == '\u{2028}' || c == '\u{2029}' || c == '\u{202F}' || c == '\u{205F}' || c == '\u{3000}'
}

/// Splits a line into its parts (see `line_spans`).
pub fn split_line(s: &Vec<char>) -> (r: Option<LineSpans>)
    ensures
        r == line_spans(s@),
{
    let n = s.len();
    let c0 = skip_ws_from(s, 0);
    let c1 = upper_end_exec(s, c0);
    if !(c1 - c0 >= 4 && c1 - c0 <= 6 && c1 < n && s[c1] == ' ') {
        return None;
    }
    let t0 = c1 + 1;
    let t1 = word_end_exec(s, t0);
    if !(t1 > t0 && n - t1 > 1 && s[t1] == ' ' && s[t1 + 1] == '[') {
        return None;
    }
    let s0 = t1 + 2;
    let close = vec![']'];
    proof {
        assert(close@ =~= seq![']']);
    }
    match find(s, &close, s0) {
        Some(s1) => {
            Some(LineSpans {
                cat_start: c0,
                cat_end: c1,
                time_start: t0,
                time_end: t1,
                source_start: s0,
                source_end: s1,
            })
        },
        None => None,
    }
}

/// The metadata of a line with spans `sp`, given what its timestamp reads as.
pub fn meta_from_parts(s: &Vec<char>, sp: LineSpans, time: Option<i64>, system_time: i64) -> (r: Option<LogMeta>)
    requires
        line_spans(s@) == Some(sp),
    ensures
        match time {
            Some(t) => r matches Some(m) && m@ == meta_of(s@, sp, t, system_time),
            None => r is None,
        },
{
    proof {
        assert(s@.len() <= usize::MAX) by {
            assert(s.len() == s@.len());
        }
    }
    proof {
        lemma_spans_in_line(s@);
    }
    match time {
        Some(t) => {
            let category = string_of(s, sp.cat_start, sp.cat_end);
            let source = string_of(s, sp.source_start, sp.source_end);
            let message = string_of(s, sp.source_end + 1, s.len());
            Some(LogMeta { category, message_time: t, system_time, source, message })
        },
        None => None,
    }
}

/// Used to build a history of what is in the log, one entry per line.
pub struct LogEntry {
    pub logstring: String,
}

impl LogEntry {
    /// Decodes the metadata of a line read at `system_time`: `None` when the line does not
    /// have the layout of `line_spans` or its timestamp does not read as an instant.
    pub fn decode_metadata(line: &str, system_time: i64) -> (r: Option<LogMeta>)
        ensures
            match line_spans(line@) {
                Some(sp) => match rfc3339_nanos(time_text(line@, sp)) {
                    Some(t) => r matches Some(m) && m@ == meta_of(line@, sp, t, system_time),
                    None => r is None,
                },
                None => r is None,
            },
    {
        let s = chars_of(line);
        match split_line(&s) {
            Some(sp) => {
                proof {
                    assert(s@.len() <= usize::MAX) by {
                        assert(s.len() == s@.len());
                    }
                }
                proof {
                    lemma_spans_in_line(s@);
                }
                let text = string_of(&s, sp.time_start, sp.time_end);
                let time = parse_timestamp(text.as_str());
                meta_from_parts(&s, sp, time, system_time)
            },
            None => None,
        }
    }
}

} // verus!
