//! Checkpoint encoding: a metrics registry as a sequence of 64-bit words, and back.
use vstd::prelude::*;
use crate::timelines::{Buckets, SlotStat, Timeline, TimelineColour};
use crate::app_timelines::{AppTimelines, NUM_TIMELINES};
use crate::decode::{LogMeta, LogMetaView};
use crate::metrics::NodeMetrics;
use crate::stat::{MmmStat, NodeStatus};
use crate::monitor::{LogMonitor, LogfileCheckpoint};

verus! {

/// The scalar value of a character.
pub open spec fn code_of(c: char) -> u64 {
    (c as u32) as u64
}

/// The character with scalar value `v`, if `v` is one.
pub open spec fn char_of_code(v: u64) -> Option<char> {
    if v <= u32::MAX && vstd::utf8::is_scalar(v as u32) {
        Some((v as u32) as char)
    } else {
        None
    }
}

/// Relies on `char::from_u32`: the character whose scalar value is `v`, `None` when `v`
/// is no Unicode scalar value.
#[verifier::external_body]
fn char_from_u32(v: u32) -> (r: Option<char>)
    ensures
        r == char_of_code(v as u64),
{
    char::from_u32(v)
}

/// The character with code `v` (see `char_of_code`).
fn char_from_code(v: u64) -> (r: Option<char>)
    ensures
        r == char_of_code(v),
{
    if v > u32::MAX as u64 {
        None
    } else {
        char_from_u32(v as u32)
    }
}

pub proof fn lemma_char_code(c: char)
    ensures
        char_of_code(code_of(c)) == Some(c),
{
    vstd::utf8::char_is_scalar(c);
    vstd::utf8::char_u32_cast(c, c as u32);
}

/// Words of a text: its length, then one word per character.
pub open spec fn enc_str(s: Seq<char>) -> Seq<u64> {
    seq![s.len() as u64] + s.map_values(|c: char| code_of(c))
}

/// Reads a text at `p`: the text and the position after it.
pub open spec fn dec_str(w: Seq<u64>, p: int) -> Option<(Seq<char>, int)> {
    if 0 <= p < w.len() && p + 1 + w[p] <= w.len()
        && forall|i: int| 0 <= i < w[p] ==> #[trigger] char_of_code(w[p + 1 + i]) is Some {
        Some((Seq::new(w[p] as nat, |i: int| char_of_code(w[p + 1 + i])->0), p + 1 + w[p]))
    } else {
        None
    }
}

/// Words of a sequence of values: its length, then the values.
pub open spec fn enc_words(s: Seq<u64>) -> Seq<u64> {
    seq![s.len() as u64] + s
}

pub open spec fn dec_words(w: Seq<u64>, p: int) -> Option<(Seq<u64>, int)> {
    if 0 <= p < w.len() && p + 1 + w[p] <= w.len() {
        Some((w.subrange(p + 1, p + 1 + w[p]), p + 1 + w[p]))
    } else {
        None
    }
}

/// Words of a slot: seven per slot.
pub open spec fn slot_words(s: SlotStat) -> Seq<u64> {
    seq![s.count, s.total as u64, (s.total >> 64) as u64, s.min, s.mean, s.max, if s.needs_init { 1 } else { 0 }]
}

pub open spec fn slot_at(w: Seq<u64>, q: int) -> SlotStat {
    SlotStat {
        count: w[q],
        total: (w[q + 1] as u128 | ((w[q + 2] as u128) << 64)) as u128,
        min: w[q + 3],
        mean: w[q + 4],
        max: w[q + 5],
        needs_init: w[q + 6] != 0,
    }
}

pub open spec fn enc_slots(s: Seq<SlotStat>) -> Seq<u64> {
    seq![s.len() as u64] + Seq::new(7 * s.len(), |i: int| slot_words(s[i / 7])[i % 7])
}

pub open spec fn dec_slots(w: Seq<u64>, p: int) -> Option<(Seq<SlotStat>, int)> {
    if 0 <= p < w.len() && p + 1 + 7 * w[p] <= w.len() {
        Some((Seq::new(w[p] as nat, |i: int| slot_at(w, p + 1 + 7 * i)), p + 1 + 7 * w[p]))
    } else {
        None
    }
}

pub proof fn lemma_u128_split(t: u128)
    ensures
        ((t as u64) as u128 | (((t >> 64u128) as u64) as u128) << 64u128) == t,
{
    assert(((t as u64) as u128 | (((t >> 64u128) as u64) as u128) << 64u128) == t) by (bit_vector);
}

/// Appends the words of `s`.
pub fn put_str(out: &mut Vec<u64>, s: &String)
    ensures
        final(out)@ == old(out)@ + enc_str(s@),
{
    let cs = crate::text::chars_of(s.as_str());
    out.push(cs.len() as u64);
    let ghost base = out@;
    let mut i: usize = 0;
    while i < cs.len()
        invariant
            cs@ == s@,
            i <= cs@.len(),
            out@ == base + cs@.subrange(0, i as int).map_values(|c: char| code_of(c)),
        decreases cs@.len() - i,
    {
        out.push(cs[i] as u32 as u64);
        proof {
            assert(code_of(cs@[i as int]) == cs@[i as int] as u32 as u64);
        }
        i = i + 1;
        proof {
            assert(cs@.subrange(0, i as int).map_values(|c: char| code_of(c))
                =~= cs@.subrange(0, i - 1).map_values(|c: char| code_of(c)).push(code_of(cs@[i - 1])));
        }
    }
    proof {
        assert(cs@.subrange(0, i as int) =~= cs@);
        assert(out@ =~= old(out)@ + enc_str(s@));
    }
}

/// Reads a text at `p` (see `dec_str`).
pub fn get_str(w: &Vec<u64>, p: usize) -> (r: Option<(String, usize)>)
    ensures
        match dec_str(w@, p as int) {
            Some((s, q)) => r matches Some((x, q2)) && x@ == s && q2 == q,
            None => r is None,
        },
{
    if p >= w.len() {
        return None;
    }
    let n = w[p];
    if n > (w.len() - p - 1) as u64 {
        return None;
    }
    let n = n as usize;
    let mut cs: Vec<char> = Vec::new();
    let wl = w.len();
    let mut i: usize = 0;
    while i < n
        invariant
            wl == w@.len(),
            p < w@.len(),
            n == w@[p as int],
            p + 1 + n <= w@.len(),
            i <= n,
            cs@.len() == i,
            forall|k: int| 0 <= k < i ==> char_of_code(#[trigger] w@[p + 1 + k]) == Some(cs@[k]),
        decreases n - i,
    {
        match char_from_code(w[p + 1 + i]) {
            Some(c) => cs.push(c),
            None => {
                proof {
                    assert(char_of_code(w@[p + 1 + i as int]) is None);
                }
                return None;
            },
        }
        i = i + 1;
    }
    let s = crate::text::string_of(&cs, 0, n);
    proof {
        assert(cs@.subrange(0, n as int) =~= Seq::new(n as nat, |k: int| char_of_code(w@[p + 1 + k])->0));
        assert forall|k: int| 0 <= k < w@[p as int] implies #[trigger] char_of_code(w@[p + 1 + k]) is Some by {
            assert(char_of_code(w@[p + 1 + k]) == Some(cs@[k]));
        }
    }
    Some((s, p + 1 + n))
}

/// Appends the words of a value ring.
pub fn put_words(out: &mut Vec<u64>, s: &Vec<u64>)
    ensures
        final(out)@ == old(out)@ + enc_words(s@),
{
    out.push(s.len() as u64);
    let ghost base = out@;
    let mut i: usize = 0;
    while i < s.len()
        invariant
            i <= s@.len(),
            out@ == base + s@.subrange(0, i as int),
        decreases s@.len() - i,
    {
        out.push(s[i]);
        i = i + 1;
        proof {
            assert(s@.subrange(0, i as int) =~= s@.subrange(0, i - 1).push(s@[i - 1]));
        }
    }
    proof {
        assert(s@.subrange(0, i as int) =~= s@);
        assert(out@ =~= old(out)@ + enc_words(s@));
    }
}

pub fn get_words(w: &Vec<u64>, p: usize) -> (r: Option<(Vec<u64>, usize)>)
    ensures
        match dec_words(w@, p as int) {
            Some((s, q)) => r matches Some((x, q2)) && x@ == s && q2 == q,
            None => r is None,
        },
{
    if p >= w.len() {
        return None;
    }
    let n = w[p];
    if n > (w.len() - p - 1) as u64 {
        return None;
    }
    let n = n as usize;
    let mut out: Vec<u64> = Vec::new();
    let wl = w.len();
    let mut i: usize = 0;
    while i < n
        invariant
            wl == w@.len(),
            p < w@.len(),
            n == w@[p as int],
            p + 1 + n <= w@.len(),
            i <= n,
            out@ == w@.subrange(p + 1, p + 1 + i),
        decreases n - i,
    {
        out.push(w[p + 1 + i]);
        i = i + 1;
        proof {
            assert(out@ =~= w@.subrange(p + 1, p + 1 + i));
        }
    }
    Some((out, p + 1 + n))
}

/// Appends the words of a slot ring.
pub fn put_slots(out: &mut Vec<u64>, s: &Vec<SlotStat>)
    ensures
        final(out)@ == old(out)@ + enc_slots(s@),
{
    out.push(s.len() as u64);
    let ghost base = out@;
    let mut i: usize = 0;
    while i < s.len()
        invariant
            i <= s@.len(),
            out@ == base + Seq::new(7 * i as nat, |k: int| slot_words(s@[k / 7])[k % 7]),
        decreases s@.len() - i,
    {
        let st = s[i];
        out.push(st.count);
        out.push(st.total as u64);
        out.push((st.total >> 64) as u64);
        out.push(st.min);
        out.push(st.mean);
        out.push(st.max);
        out.push(if st.needs_init { 1 } else { 0 });
        i = i + 1;
        proof {
            assert(out@ =~= base + Seq::new(7 * i as nat, |k: int| slot_words(s@[k / 7])[k % 7]));
        }
    }
    proof {
        assert(out@ =~= old(out)@ + enc_slots(s@));
    }
}

pub fn get_slots(w: &Vec<u64>, p: usize) -> (r: Option<(Vec<SlotStat>, usize)>)
    ensures
        match dec_slots(w@, p as int) {
            Some((s, q)) => r matches Some((x, q2)) && x@ == s && q2 == q,
            None => r is None,
        },
{
    if p >= w.len() {
        return None;
    }
    let n = w[p];
    if n > ((w.len() - p - 1) / 7) as u64 {
        return None;
    }
    let n = n as usize;
    let mut out: Vec<SlotStat> = Vec::new();
    let wl = w.len();
    let mut i: usize = 0;
    while i < n
        invariant
            wl == w@.len(),
            p < w@.len(),
            n == w@[p as int],
            p + 1 + 7 * n <= w@.len(),
            i <= n,
            out@ == Seq::new(i as nat, |k: int| slot_at(w@, p + 1 + 7 * k)),
        decreases n - i,
    {
        let q = p + 1 + 7 * i;
        let total = (w[q + 1] as u128) | ((w[q + 2] as u128) << 64);
        out.push(SlotStat {
            count: w[q],
            total,
            min: w[q + 3],
            mean: w[q + 4],
            max: w[q + 5],
            needs_init: w[q + 6] != 0,
        });
        i = i + 1;
        proof {
            assert(out@ =~= Seq::new(i as nat, |k: int| slot_at(w@, p + 1 + 7 * k)));
        }
    }
    Some((out, p + 1 + 7 * n))
}

/// A time or other signed value as one word.
pub open spec fn i64_word(v: i64) -> u64 {
    (v + 0x8000_0000_0000_0000int) as u64
}

pub open spec fn word_i64(w: u64) -> i64 {
    (w - 0x8000_0000_0000_0000int) as i64
}

fn put_i64(v: i64) -> (r: u64)
    ensures
        r == i64_word(v),
{
    ((v as i128) + 0x8000_0000_0000_0000i128) as u64
}

fn get_i64(w: u64) -> (r: i64)
    ensures
        r == word_i64(w),
{
    ((w as i128) - 0x8000_0000_0000_0000i128) as i64
}

/// Tag word of an optional value: 1 when present.
pub open spec fn opt_tag<T>(o: Option<T>) -> u64 {
    if o is Some { 1 } else { 0 }
}

pub open spec fn opt_i64_word(o: Option<i64>) -> u64 {
    match o {
        Some(v) => i64_word(v),
        None => 0,
    }
}

pub open spec fn word_opt_i64(tag: u64, w: u64) -> Option<i64> {
    if tag != 0 { Some(word_i64(w)) } else { None }
}

pub open spec fn bool_word(b: bool) -> u64 {
    if b { 1 } else { 0 }
}

/// `w[p..]` begins with `a + b`: it begins with `a`, and `b` follows.
pub proof fn lemma_split(w: Seq<u64>, p: int, a: Seq<u64>, b: Seq<u64>)
    requires
        0 <= p,
        p + a.len() + b.len() <= w.len(),
        w.subrange(p, p + a.len() + b.len()) == a + b,
    ensures
        w.subrange(p, p + a.len()) == a,
        w.subrange(p + a.len(), p + a.len() + b.len()) == b,
{
    assert(w.subrange(p, p + a.len()) =~= (a + b).subrange(0, a.len() as int));
    assert(w.subrange(p + a.len(), p + a.len() + b.len()) =~= (a + b).subrange(a.len() as int, (a.len() + b.len()) as int));
}

pub proof fn lemma_str_round_trip(w: Seq<u64>, p: int, s: Seq<char>)
    requires
        0 <= p,
        s.len() <= u64::MAX,
        p + enc_str(s).len() <= w.len(),
        w.subrange(p, p + enc_str(s).len()) == enc_str(s),
    ensures
        dec_str(w, p) == Some((s, p + enc_str(s).len())),
{
    let e = enc_str(s);
    assert(w[p] == e[0]);
    assert forall|i: int| 0 <= i < s.len() implies #[trigger] char_of_code(w[p + 1 + i]) == Some(s[i]) by {
        assert(w[p + 1 + i] == e[1 + i]);
        lemma_char_code(s[i]);
    }
    let d = Seq::new(w[p] as nat, |i: int| char_of_code(w[p + 1 + i])->0);
    assert(d =~= s);
}

pub proof fn lemma_words_round_trip(w: Seq<u64>, p: int, s: Seq<u64>)
    requires
        0 <= p,
        s.len() <= u64::MAX,
        p + enc_words(s).len() <= w.len(),
        w.subrange(p, p + enc_words(s).len()) == enc_words(s),
    ensures
        dec_words(w, p) == Some((s, p + enc_words(s).len())),
{
    let e = enc_words(s);
    assert(w[p] == e[0]);
    assert(w.subrange(p + 1, p + 1 + s.len()) =~= s) by {
        assert forall|i: int| 0 <= i < s.len() implies w.subrange(p + 1, p + 1 + s.len())[i] == s[i] by {
            assert(w[p + 1 + i] == e[1 + i]);
        }
    }
}

pub proof fn lemma_slots_round_trip(w: Seq<u64>, p: int, s: Seq<SlotStat>)
    requires
        0 <= p,
        s.len() <= u64::MAX,
        7 * s.len() <= u64::MAX,
        p + enc_slots(s).len() <= w.len(),
        w.subrange(p, p + enc_slots(s).len()) == enc_slots(s),
    ensures
        dec_slots(w, p) == Some((s, p + enc_slots(s).len())),
{
    let e = enc_slots(s);
    assert(w[p] == e[0]);
    assert forall|i: int| 0 <= i < s.len() implies slot_at(w, p + 1 + 7 * i) == s[i] by {
        assert forall|k: int| 0 <= k < 7 implies w[p + 1 + 7 * i + k] == #[trigger] slot_words(s[i])[k] by {
            assert(w[p + 1 + 7 * i + k] == e[1 + 7 * i + k]);
            assert((7 * i + k) / 7 == i) by (nonlinear_arith)
                requires
                    0 <= k < 7,
                    0 <= i,
            ;
            assert((7 * i + k) % 7 == k) by (nonlinear_arith)
                requires
                    0 <= k < 7,
                    0 <= i,
            ;
        }
        lemma_u128_split(s[i].total);
        assert(s[i].needs_init == (slot_words(s[i])[6] != 0));
    }
    let d = Seq::new(w[p] as nat, |i: int| slot_at(w, p + 1 + 7 * i));
    assert(d =~= s);
}

/// The words of a bucket set: a fixed header, then its two rings.
pub open spec fn buckets_header(b: Buckets) -> Seq<u64> {
    seq![
        opt_tag(b.bucket_time), opt_i64_word(b.bucket_time),
        opt_tag(b.earliest_time), opt_i64_word(b.earliest_time),
        opt_tag(b.latest_time), opt_i64_word(b.latest_time),
        i64_word(b.bucket_duration), b.num_buckets as u64,
        b.values_total as u64, (b.values_total >> 64) as u64,
        b.values_min, b.values_max, bool_word(b.is_mmm)
    ]
}

pub open spec fn enc_buckets(b: Buckets) -> Seq<u64> {
    buckets_header(b) + enc_words(b.buckets@) + enc_slots(b.stats@)
}

/// What a decoded bucket set holds: every field, the rings as sequences.
pub struct BucketsModel {
    pub bucket_time: Option<i64>,
    pub earliest_time: Option<i64>,
    pub latest_time: Option<i64>,
    pub bucket_duration: i64,
    pub num_buckets: usize,
    pub values_total: u128,
    pub values_min: u64,
    pub values_max: u64,
    pub is_mmm: bool,
    pub buckets: Seq<u64>,
    pub stats: Seq<SlotStat>,
}

pub open spec fn buckets_model(b: Buckets) -> BucketsModel {
    BucketsModel {
        bucket_time: b.bucket_time,
        earliest_time: b.earliest_time,
        latest_time: b.latest_time,
        bucket_duration: b.bucket_duration,
        num_buckets: b.num_buckets,
        values_total: b.values_total,
        values_min: b.values_min,
        values_max: b.values_max,
        is_mmm: b.is_mmm,
        buckets: b.buckets@,
        stats: b.stats@,
    }
}

pub open spec fn dec_buckets(w: Seq<u64>, p: int) -> Option<(BucketsModel, int)> {
    if 0 <= p && p + 13 <= w.len() && w[p + 7] <= usize::MAX {
        match dec_words(w, p + 13) {
            Some((vals, q)) => match dec_slots(w, q) {
                Some((st, q2)) => Some((
                    BucketsModel {
                        bucket_time: word_opt_i64(w[p], w[p + 1]),
                        earliest_time: word_opt_i64(w[p + 2], w[p + 3]),
                        latest_time: word_opt_i64(w[p + 4], w[p + 5]),
                        bucket_duration: word_i64(w[p + 6]),
                        num_buckets: w[p + 7] as usize,
                        values_total: (w[p + 8] as u128 | ((w[p + 9] as u128) << 64)) as u128,
                        values_min: w[p + 10],
                        values_max: w[p + 11],
                        is_mmm: w[p + 12] != 0,
                        buckets: vals,
                        stats: st,
                    },
                    q2,
                )),
                None => None,
            },
            None => None,
        }
    } else {
        None
    }
}

pub fn put_buckets(out: &mut Vec<u64>, b: &Buckets)
    ensures
        final(out)@ == old(out)@ + enc_buckets(*b),
{
    out.push(if b.bucket_time.is_some() { 1 } else { 0 });
    out.push(match b.bucket_time { Some(v) => put_i64(v), None => 0 });
    out.push(if b.earliest_time.is_some() { 1 } else { 0 });
    out.push(match b.earliest_time { Some(v) => put_i64(v), None => 0 });
    out.push(if b.latest_time.is_some() { 1 } else { 0 });
    out.push(match b.latest_time { Some(v) => put_i64(v), None => 0 });
    out.push(put_i64(b.bucket_duration));
    out.push(b.num_buckets as u64);
    out.push(b.values_total as u64);
    out.push((b.values_total >> 64) as u64);
    out.push(b.values_min);
    out.push(b.values_max);
    out.push(if b.is_mmm { 1 } else { 0 });
    proof {
        assert(out@ =~= old(out)@ + buckets_header(*b));
    }
    put_words(out, &b.buckets);
    put_slots(out, &b.stats);
    proof {
        assert(out@ =~= old(out)@ + enc_buckets(*b));
    }
}

pub fn get_buckets(w: &Vec<u64>, p: usize) -> (r: Option<(Buckets, usize)>)
    ensures
        match dec_buckets(w@, p as int) {
            Some((m, q)) => r matches Some((x, q2)) && buckets_model(x) == m && q2 == q,
            None => r is None,
        },
{
    if p > w.len() || w.len() - p < 13 {
        return None;
    }
    if w[p + 7] > usize::MAX as u64 {
        return None;
    }
    let (vals, q) = match get_words(w, p + 13) {
        Some(x) => x,
        None => {
            return None;
        },
    };
    let (st, q2) = match get_slots(w, q) {
        Some(x) => x,
        None => {
            return None;
        },
    };
    let b = Buckets {
        bucket_time: if w[p] != 0 { Some(get_i64(w[p + 1])) } else { None },
        earliest_time: if w[p + 2] != 0 { Some(get_i64(w[p + 3])) } else { None },
        latest_time: if w[p + 4] != 0 { Some(get_i64(w[p + 5])) } else { None },
        bucket_duration: get_i64(w[p + 6]),
        num_buckets: w[p + 7] as usize,
        values_total: (w[p + 8] as u128) | ((w[p + 9] as u128) << 64),
        values_min: w[p + 10],
        values_max: w[p + 11],
        is_mmm: w[p + 12] != 0,
        buckets: vals,
        stats: st,
    };
    Some((b, q2))
}

pub proof fn lemma_buckets_round_trip(w: Seq<u64>, p: int, b: Buckets)
    requires
        0 <= p,
        b.buckets@.len() <= u64::MAX,
        7 * b.stats@.len() <= u64::MAX,
        p + enc_buckets(b).len() <= w.len(),
        w.subrange(p, p + enc_buckets(b).len()) == enc_buckets(b),
    ensures
        dec_buckets(w, p) == Some((buckets_model(b), p + enc_buckets(b).len())),
{
    let h = buckets_header(b);
    let v = enc_words(b.buckets@);
    let st = enc_slots(b.stats@);
    assert(enc_buckets(b) == (h + v) + st);
    lemma_split(w, p, h + v, st);
    lemma_split(w, p, h, v);
    assert forall|i: int| 0 <= i < 13 implies w[p + i] == #[trigger] h[i] by {
        assert(w.subrange(p, p + 13)[i] == h[i]);
    }
    lemma_words_round_trip(w, p + 13, b.buckets@);
    lemma_slots_round_trip(w, p + 13 + v.len(), b.stats@);
    lemma_u128_split(b.values_total);
    assert(word_i64(i64_word(b.bucket_duration)) == b.bucket_duration);
    assert(word_opt_i64(h[0], h[1]) == b.bucket_time);
    assert(word_opt_i64(h[2], h[3]) == b.earliest_time);
    assert(word_opt_i64(h[4], h[5]) == b.latest_time);
}

pub open spec fn colour_word(c: TimelineColour) -> u64 {
    match c {
        TimelineColour::LightCyan => 0,
        TimelineColour::LightBlue => 1,
        TimelineColour::Yellow => 2,
        TimelineColour::Green => 3,
        TimelineColour::Blue => 4,
        TimelineColour::Magenta => 5,
        TimelineColour::Red => 6,
    }
}

pub open spec fn word_colour(w: u64) -> TimelineColour {
    if w == 0 {
        TimelineColour::LightCyan
    } else if w == 1 {
        TimelineColour::LightBlue
    } else if w == 2 {
        TimelineColour::Yellow
    } else if w == 3 {
        TimelineColour::Green
    } else if w == 4 {
        TimelineColour::Blue
    } else if w == 5 {
        TimelineColour::Magenta
    } else {
        TimelineColour::Red
    }
}

fn put_colour(c: TimelineColour) -> (r: u64)
    ensures
        r == colour_word(c),
{
    match c {
        TimelineColour::LightCyan => 0,
        TimelineColour::LightBlue => 1,
        TimelineColour::Yellow => 2,
        TimelineColour::Green => 3,
        TimelineColour::Blue => 4,
        TimelineColour::Magenta => 5,
        TimelineColour::Red => 6,
    }
}

fn get_colour(w: u64) -> (r: TimelineColour)
    ensures
        r == word_colour(w),
{
    if w == 0 {
        TimelineColour::LightCyan
    } else if w == 1 {
        TimelineColour::LightBlue
    } else if w == 2 {
        TimelineColour::Yellow
    } else if w == 3 {
        TimelineColour::Green
    } else if w == 4 {
        TimelineColour::Blue
    } else if w == 5 {
        TimelineColour::Magenta
    } else {
        TimelineColour::Red
    }
}

/// Words of the named bucket sets of a timeline, one name and set after another.
pub open spec fn enc_sets(names: Seq<String>, sets: Seq<Buckets>) -> Seq<u64>
    decreases names.len(),
{
    if names.len() == 0 || sets.len() == 0 {
        Seq::empty()
    } else {
        enc_sets(names.drop_last(), sets.drop_last()) + enc_str(names.last()@) + enc_buckets(sets.last())
    }
}

pub open spec fn dec_sets(w: Seq<u64>, p: int, n: nat) -> Option<(Seq<Seq<char>>, Seq<BucketsModel>, int)>
    decreases n,
{
    if n == 0 {
        if 0 <= p <= w.len() { Some((Seq::empty(), Seq::empty(), p)) } else { None }
    } else {
        match dec_sets(w, p, (n - 1) as nat) {
            Some((ns, bs, q)) => match dec_str(w, q) {
                Some((nm, q1)) => match dec_buckets(w, q1) {
                    Some((bm, q2)) => Some((ns.push(nm), bs.push(bm), q2)),
                    None => None,
                },
                None => None,
            },
            None => None,
        }
    }
}

/// What a decoded timeline holds.
pub struct TimelineModel {
    pub name: Seq<char>,
    pub units_text: Seq<char>,
    pub is_mmm: bool,
    pub is_cumulative: bool,
    pub colour: TimelineColour,
    pub last_non_zero_value: u64,
    pub bucket_names: Seq<Seq<char>>,
    pub bucket_sets: Seq<BucketsModel>,
}

pub open spec fn timeline_model(t: Timeline) -> TimelineModel {
    TimelineModel {
        name: t.name@,
        units_text: t.units_text@,
        is_mmm: t.is_mmm,
        is_cumulative: t.is_cumulative,
        colour: t.colour,
        last_non_zero_value: t.last_non_zero_value,
        bucket_names: t.bucket_names@.map_values(|s: String| s@),
        bucket_sets: t.bucket_sets@.map_values(|b: Buckets| buckets_model(b)),
    }
}

pub open spec fn timeline_header(t: Timeline) -> Seq<u64> {
    seq![bool_word(t.is_mmm), bool_word(t.is_cumulative), colour_word(t.colour), t.last_non_zero_value, t.bucket_sets@.len() as u64]
}

pub open spec fn enc_timeline(t: Timeline) -> Seq<u64> {
    enc_str(t.name@) + enc_str(t.units_text@) + timeline_header(t) + enc_sets(t.bucket_names@, t.bucket_sets@)
}

pub open spec fn dec_timeline(w: Seq<u64>, p: int) -> Option<(TimelineModel, int)> {
    match dec_str(w, p) {
        Some((name, q1)) => match dec_str(w, q1) {
            Some((units, q2)) => if q2 + 5 <= w.len() {
                match dec_sets(w, q2 + 5, w[q2 + 4] as nat) {
                    Some((ns, bs, q3)) => Some((
                        TimelineModel {
                            name,
                            units_text: units,
                            is_mmm: w[q2] != 0,
                            is_cumulative: w[q2 + 1] != 0,
                            colour: word_colour(w[q2 + 2]),
                            last_non_zero_value: w[q2 + 3],
                            bucket_names: ns,
                            bucket_sets: bs,
                        },
                        q3,
                    )),
                    None => None,
                }
            } else {
                None
            },
            None => None,
        },
        None => None,
    }
}

pub fn put_timeline(out: &mut Vec<u64>, t: &Timeline)
    requires
        t.wf(),
    ensures
        final(out)@ == old(out)@ + enc_timeline(*t),
{
    put_str(out, &t.name);
    put_str(out, &t.units_text);
    let ghost mid = out@;
    out.push(if t.is_mmm { 1 } else { 0 });
    out.push(if t.is_cumulative { 1 } else { 0 });
    out.push(put_colour(t.colour));
    out.push(t.last_non_zero_value);
    out.push(t.bucket_sets.len() as u64);
    proof {
        assert(out@ =~= mid + timeline_header(*t));
    }
    let ghost base = out@;
    let mut i: usize = 0;
    while i < t.bucket_sets.len()
        invariant
            t.wf(),
            i <= t.bucket_sets@.len(),
            out@ == base + enc_sets(t.bucket_names@.subrange(0, i as int), t.bucket_sets@.subrange(0, i as int)),
        decreases t.bucket_sets@.len() - i,
    {
        put_str(out, &t.bucket_names[i]);
        put_buckets(out, &t.bucket_sets[i]);
        i = i + 1;
        proof {
            let ns = t.bucket_names@.subrange(0, i as int);
            let bs = t.bucket_sets@.subrange(0, i as int);
            assert(ns.drop_last() =~= t.bucket_names@.subrange(0, i - 1));
            assert(bs.drop_last() =~= t.bucket_sets@.subrange(0, i - 1));
            assert(out@ =~= base + enc_sets(ns, bs));
        }
    }
    proof {
        assert(t.bucket_names@.subrange(0, i as int) =~= t.bucket_names@);
        assert(t.bucket_sets@.subrange(0, i as int) =~= t.bucket_sets@);
        assert(out@ =~= old(out)@ + enc_timeline(*t));
    }
}

pub fn get_timeline(w: &Vec<u64>, p: usize) -> (r: Option<(Timeline, usize)>)
    ensures
        match dec_timeline(w@, p as int) {
            Some((m, q)) => r matches Some((x, q2)) && timeline_model(x) == m && q2 == q,
            None => r is None,
        },
{
    let (name, q1) = match get_str(w, p) {
        Some(x) => x,
        None => {
            return None;
        },
    };
    let (units_text, q2) = match get_str(w, q1) {
        Some(x) => x,
        None => {
            return None;
        },
    };
    if q2 > w.len() || w.len() - q2 < 5 {
        return None;
    }
    let n = w[q2 + 4];
    let mut names: Vec<String> = Vec::new();
    let mut sets: Vec<Buckets> = Vec::new();
    let mut pos = q2 + 5;
    let mut i: u64 = 0;
    proof {
        assert(dec_sets(w@, q2 + 5, 0) == Some((Seq::<Seq<char>>::empty(), Seq::<BucketsModel>::empty(), q2 + 5)));
        assert(names@.map_values(|s: String| s@) =~= Seq::<Seq<char>>::empty());
        assert(sets@.map_values(|b: Buckets| buckets_model(b)) =~= Seq::<BucketsModel>::empty());
    }
    while i < n
        invariant
            i <= n,
            n == w@[q2 + 4],
            q2 + 5 <= w@.len(),
            dec_str(w@, p as int) == Some((name@, q1 as int)),
            dec_str(w@, q1 as int) == Some((units_text@, q2 as int)),
            dec_sets(w@, q2 + 5, i as nat) == Some((names@.map_values(|s: String| s@), sets@.map_values(|b: Buckets| buckets_model(b)), pos as int)),
        decreases n - i,
    {
        let (nm, pa) = match get_str(w, pos) {
            Some(x) => x,
            None => {
                proof {
                    assert(dec_sets(w@, q2 + 5, (i + 1) as nat) is None);
                    lemma_dec_sets_stops(w@, q2 + 5, (i + 1) as nat, n as nat);
                }
                return None;
            },
        };
        let (b, pb) = match get_buckets(w, pa) {
            Some(x) => x,
            None => {
                proof {
                    assert(dec_sets(w@, q2 + 5, (i + 1) as nat) is None);
                    lemma_dec_sets_stops(w@, q2 + 5, (i + 1) as nat, n as nat);
                }
                return None;
            },
        };
        let ghost ns0 = names@;
        let ghost bs0 = sets@;
        names.push(nm);
        sets.push(b);
        pos = pb;
        i = i + 1;
        proof {
            assert(names@.map_values(|s: String| s@) =~= ns0.map_values(|s: String| s@).push(names@.last()@));
            assert(sets@.map_values(|b: Buckets| buckets_model(b)) =~= bs0.map_values(|b: Buckets| buckets_model(b)).push(buckets_model(sets@.last())));
        }
    }
    let t = Timeline {
        name,
        units_text,
        is_mmm: w[q2] != 0,
        is_cumulative: w[q2 + 1] != 0,
        colour: get_colour(w[q2 + 2]),
        last_non_zero_value: w[q2 + 3],
        bucket_names: names,
        bucket_sets: sets,
    };
    Some((t, pos))
}

/// Once a decode of `k` items fails, so does any longer one.
pub proof fn lemma_dec_sets_stops(w: Seq<u64>, p: int, k: nat, n: nat)
    requires
        k <= n,
        dec_sets(w, p, k) is None,
    ensures
        dec_sets(w, p, n) is None,
    decreases n - k,
{
    if k < n {
        lemma_dec_sets_stops(w, p, k + 1, n);
    }
}

pub proof fn lemma_sets_round_trip(w: Seq<u64>, p: int, names: Seq<String>, sets: Seq<Buckets>)
    requires
        0 <= p,
        names.len() == sets.len(),
        forall|i: int| 0 <= i < sets.len() ==> (#[trigger] sets[i]).buckets@.len() <= u64::MAX
            && 7 * sets[i].stats@.len() <= u64::MAX && names[i]@.len() <= u64::MAX,
        p + enc_sets(names, sets).len() <= w.len(),
        w.subrange(p, p + enc_sets(names, sets).len()) == enc_sets(names, sets),
    ensures
        dec_sets(w, p, names.len()) == Some((
            names.map_values(|s: String| s@),
            sets.map_values(|b: Buckets| buckets_model(b)),
            p + enc_sets(names, sets).len(),
        )),
    decreases names.len(),
{
    if names.len() == 0 {
        assert(names.map_values(|s: String| s@) =~= Seq::<Seq<char>>::empty());
        assert(sets.map_values(|b: Buckets| buckets_model(b)) =~= Seq::<BucketsModel>::empty());
    } else {
        let a = enc_sets(names.drop_last(), sets.drop_last());
        let x = enc_str(names.last()@);
        let y = enc_buckets(sets.last());
        assert(enc_sets(names, sets) == (a + x) + y);
        lemma_split(w, p, a + x, y);
        lemma_split(w, p, a, x);
        assert forall|i: int| 0 <= i < sets.drop_last().len() implies (#[trigger] sets.drop_last()[i]).buckets@.len() <= u64::MAX
            && 7 * sets.drop_last()[i].stats@.len() <= u64::MAX && names.drop_last()[i]@.len() <= u64::MAX by {
            assert(sets.drop_last()[i] == sets[i]);
            assert(names.drop_last()[i] == names[i]);
        }
        lemma_sets_round_trip(w, p, names.drop_last(), sets.drop_last());
        assert(sets[sets.len() - 1] == sets.last());
        lemma_str_round_trip(w, p + a.len(), names.last()@);
        lemma_buckets_round_trip(w, p + a.len() + x.len(), sets.last());
        assert(names.drop_last().map_values(|s: String| s@).push(names.last()@) =~= names.map_values(|s: String| s@));
        assert(sets.drop_last().map_values(|b: Buckets| buckets_model(b)).push(buckets_model(sets.last()))
            =~= sets.map_values(|b: Buckets| buckets_model(b)));
    }
}

/// Sizes within what a word can count.
pub open spec fn timeline_fits(t: Timeline) -> bool {
    &&& t.name@.len() <= u64::MAX
    &&& t.units_text@.len() <= u64::MAX
    &&& t.bucket_names@.len() == t.bucket_sets@.len()
    &&& t.bucket_sets@.len() <= u64::MAX
    &&& forall|i: int| 0 <= i < t.bucket_sets@.len() ==> (#[trigger] t.bucket_sets@[i]).buckets@.len() <= u64::MAX
        && 7 * t.bucket_sets@[i].stats@.len() <= u64::MAX && t.bucket_names@[i]@.len() <= u64::MAX
}

pub proof fn lemma_timeline_round_trip(w: Seq<u64>, p: int, t: Timeline)
    requires
        0 <= p,
        timeline_fits(t),
        p + enc_timeline(t).len() <= w.len(),
        w.subrange(p, p + enc_timeline(t).len()) == enc_timeline(t),
    ensures
        dec_timeline(w, p) == Some((timeline_model(t), p + enc_timeline(t).len())),
{
    let a = enc_str(t.name@);
    let b = enc_str(t.units_text@);
    let h = timeline_header(t);
    let e = enc_sets(t.bucket_names@, t.bucket_sets@);
    assert(enc_timeline(t) == ((a + b) + h) + e);
    lemma_split(w, p, (a + b) + h, e);
    lemma_split(w, p, a + b, h);
    lemma_split(w, p, a, b);
    lemma_str_round_trip(w, p, t.name@);
    lemma_str_round_trip(w, p + a.len(), t.units_text@);
    let q2 = p + a.len() + b.len();
    assert forall|i: int| 0 <= i < 5 implies w[q2 + i] == #[trigger] h[i] by {
        assert(w.subrange(q2, q2 + 5)[i] == h[i]);
    }
    lemma_sets_round_trip(w, q2 + 5, t.bucket_names@, t.bucket_sets@);
    assert(word_colour(colour_word(t.colour)) == t.colour);
}

/// Words of the timelines of a node: their count, then each in turn.
pub open spec fn enc_timeline_list(ts: Seq<Timeline>) -> Seq<u64>
    decreases ts.len(),
{
    if ts.len() == 0 {
        Seq::empty()
    } else {
        enc_timeline_list(ts.drop_last()) + enc_timeline(ts.last())
    }
}

pub open spec fn dec_timeline_list(w: Seq<u64>, p: int, n: nat) -> Option<(Seq<TimelineModel>, int)>
    decreases n,
{
    if n == 0 {
        if 0 <= p <= w.len() { Some((Seq::empty(), p)) } else { None }
    } else {
        match dec_timeline_list(w, p, (n - 1) as nat) {
            Some((ts, q)) => match dec_timeline(w, q) {
                Some((t, q1)) => Some((ts.push(t), q1)),
                None => None,
            },
            None => None,
        }
    }
}

pub open spec fn enc_app_timelines(a: AppTimelines) -> Seq<u64> {
    seq![a.timelines@.len() as u64] + enc_timeline_list(a.timelines@)
}

pub open spec fn dec_app_timelines(w: Seq<u64>, p: int) -> Option<(Seq<TimelineModel>, int)> {
    if 0 <= p < w.len() {
        dec_timeline_list(w, p + 1, w[p] as nat)
    } else {
        None
    }
}

pub open spec fn app_timelines_model(a: AppTimelines) -> Seq<TimelineModel> {
    a.timelines@.map_values(|t: Timeline| timeline_model(t))
}

pub open spec fn app_timelines_fit(a: AppTimelines) -> bool {
    forall|i: int| 0 <= i < a.timelines@.len() ==> timeline_fits(#[trigger] a.timelines@[i])
}

pub proof fn lemma_dec_timeline_list_stops(w: Seq<u64>, p: int, k: nat, n: nat)
    requires
        k <= n,
        dec_timeline_list(w, p, k) is None,
    ensures
        dec_timeline_list(w, p, n) is None,
    decreases n - k,
{
    if k < n {
        lemma_dec_timeline_list_stops(w, p, k + 1, n);
    }
}

pub proof fn lemma_timeline_list_round_trip(w: Seq<u64>, p: int, ts: Seq<Timeline>)
    requires
        0 <= p,
        forall|i: int| 0 <= i < ts.len() ==> timeline_fits(#[trigger] ts[i]),
        p + enc_timeline_list(ts).len() <= w.len(),
        w.subrange(p, p + enc_timeline_list(ts).len()) == enc_timeline_list(ts),
    ensures
        dec_timeline_list(w, p, ts.len()) == Some((ts.map_values(|t: Timeline| timeline_model(t)), p + enc_timeline_list(ts).len())),
    decreases ts.len(),
{
    if ts.len() == 0 {
        assert(ts.map_values(|t: Timeline| timeline_model(t)) =~= Seq::<TimelineModel>::empty());
    } else {
        let a = enc_timeline_list(ts.drop_last());
        let x = enc_timeline(ts.last());
        lemma_split(w, p, a, x);
        assert forall|i: int| 0 <= i < ts.drop_last().len() implies timeline_fits(#[trigger] ts.drop_last()[i]) by {
            assert(ts.drop_last()[i] == ts[i]);
        }
        lemma_timeline_list_round_trip(w, p, ts.drop_last());
        assert(ts[ts.len() - 1] == ts.last());
        lemma_timeline_round_trip(w, p + a.len(), ts.last());
        assert(ts.drop_last().map_values(|t: Timeline| timeline_model(t)).push(timeline_model(ts.last()))
            =~= ts.map_values(|t: Timeline| timeline_model(t)));
    }
}

pub fn put_app_timelines(out: &mut Vec<u64>, a: &AppTimelines)
    requires
        a.wf(),
    ensures
        final(out)@ == old(out)@ + enc_app_timelines(*a),
{
    out.push(a.timelines.len() as u64);
    let ghost base = out@;
    let mut i: usize = 0;
    while i < a.timelines.len()
        invariant
            a.wf(),
            i <= a.timelines@.len(),
            out@ == base + enc_timeline_list(a.timelines@.subrange(0, i as int)),
        decreases a.timelines@.len() - i,
    {
        put_timeline(out, &a.timelines[i]);
        i = i + 1;
        proof {
            let ts = a.timelines@.subrange(0, i as int);
            assert(ts.drop_last() =~= a.timelines@.subrange(0, i - 1));
            assert(out@ =~= base + enc_timeline_list(ts));
        }
    }
    proof {
        assert(a.timelines@.subrange(0, i as int) =~= a.timelines@);
        assert(out@ =~= old(out)@ + enc_app_timelines(*a));
    }
}

pub fn get_app_timelines(w: &Vec<u64>, p: usize) -> (r: Option<(AppTimelines, usize)>)
    ensures
        match dec_app_timelines(w@, p as int) {
            Some((m, q)) => r matches Some((x, q2)) && app_timelines_model(x) == m && q2 == q,
            None => r is None,
        },
{
    if p >= w.len() {
        return None;
    }
    let n = w[p];
    let mut ts: Vec<Timeline> = Vec::new();
    let mut pos = p + 1;
    let mut i: u64 = 0;
    proof {
        assert(ts@.map_values(|t: Timeline| timeline_model(t)) =~= Seq::<TimelineModel>::empty());
    }
    while i < n
        invariant
            i <= n,
            p < w@.len(),
            n == w@[p as int],
            dec_timeline_list(w@, p + 1, i as nat) == Some((ts@.map_values(|t: Timeline| timeline_model(t)), pos as int)),
        decreases n - i,
    {
        let (t, q) = match get_timeline(w, pos) {
            Some(x) => x,
            None => {
                proof {
                    lemma_dec_timeline_list_stops(w@, p + 1, (i + 1) as nat, n as nat);
                }
                return None;
            },
        };
        let ghost ts0 = ts@;
        ts.push(t);
        pos = q;
        i = i + 1;
        proof {
            assert(ts@.map_values(|t: Timeline| timeline_model(t)) =~= ts0.map_values(|t: Timeline| timeline_model(t)).push(timeline_model(ts@.last())));
        }
    }
    Some((AppTimelines { timelines: ts }, pos))
}

pub proof fn lemma_app_timelines_round_trip(w: Seq<u64>, p: int, a: AppTimelines)
    requires
        0 <= p,
        app_timelines_fit(a),
        a.timelines@.len() <= u64::MAX,
        p + enc_app_timelines(a).len() <= w.len(),
        w.subrange(p, p + enc_app_timelines(a).len()) == enc_app_timelines(a),
    ensures
        dec_app_timelines(w, p) == Some((app_timelines_model(a), p + enc_app_timelines(a).len())),
{
    let h = seq![a.timelines@.len() as u64];
    lemma_split(w, p, h, enc_timeline_list(a.timelines@));
    assert(w[p] == w.subrange(p, p + 1)[0]);
    lemma_timeline_list_round_trip(w, p + 1, a.timelines@);
}

/// The view of an optional text.
pub open spec fn opt_view(o: Option<String>) -> Option<Seq<char>> {
    match o {
        Some(s) => Some(s@),
        None => None,
    }
}

pub open spec fn opt_u64_word(o: Option<u64>) -> u64 {
    match o {
        Some(v) => v,
        None => 0,
    }
}

pub open spec fn status_word(s: NodeStatus) -> u64 {
    match s {
        NodeStatus::Started => 0,
        NodeStatus::Connecting => 1,
        NodeStatus::Connected => 2,
        NodeStatus::Stopped => 3,
    }
}

pub open spec fn word_status(w: u64) -> NodeStatus {
    if w == 0 {
        NodeStatus::Started
    } else if w == 1 {
        NodeStatus::Connecting
    } else if w == 2 {
        NodeStatus::Connected
    } else {
        NodeStatus::Stopped
    }
}

fn put_status(s: NodeStatus) -> (r: u64)
    ensures
        r == status_word(s),
{
    match s {
        NodeStatus::Started => 0,
        NodeStatus::Connecting => 1,
        NodeStatus::Connected => 2,
        NodeStatus::Stopped => 3,
    }
}

fn get_status(w: u64) -> (r: NodeStatus)
    ensures
        r == word_status(w),
{
    if w == 0 {
        NodeStatus::Started
    } else if w == 1 {
        NodeStatus::Connecting
    } else if w == 2 {
        NodeStatus::Connected
    } else {
        NodeStatus::Stopped
    }
}

pub open spec fn stat_at(w: Seq<u64>, q: int) -> MmmStat {
    MmmStat {
        sample_count: w[q],
        most_recent: w[q + 1],
        total: (w[q + 2] as u128 | ((w[q + 3] as u128) << 64)) as u128,
        min: w[q + 4],
        mean: w[q + 5],
        max: w[q + 6],
    }
}

fn get_stat(w: &Vec<u64>, q: usize) -> (r: MmmStat)
    requires
        q + 7 <= w@.len(),
    ensures
        r == stat_at(w@, q as int),
{
    proof {
        assert(w@.len() <= usize::MAX) by {
            assert(w.len() == w@.len());
        }
    }
    MmmStat {
        sample_count: w[q],
        most_recent: w[q + 1],
        total: (w[q + 2] as u128) | ((w[q + 3] as u128) << 64),
        min: w[q + 4],
        mean: w[q + 5],
        max: w[q + 6],
    }
}

/// Words of an optional text: a tag, then the text when present.
pub open spec fn enc_opt_str(o: Option<Seq<char>>) -> Seq<u64> {
    match o {
        Some(s) => seq![1u64] + enc_str(s),
        None => seq![0u64],
    }
}

pub open spec fn dec_opt_str(w: Seq<u64>, p: int) -> Option<(Option<Seq<char>>, int)> {
    if 0 <= p < w.len() {
        if w[p] != 0 {
            match dec_str(w, p + 1) {
                Some((s, q)) => Some((Some(s), q)),
                None => None,
            }
        } else {
            Some((None, p + 1))
        }
    } else {
        None
    }
}

pub fn put_opt_str(out: &mut Vec<u64>, o: &Option<String>)
    ensures
        final(out)@ == old(out)@ + enc_opt_str(opt_view(*o)),
{
    match o {
        Some(s) => {
            out.push(1);
            put_str(out, s);
        },
        None => {
            out.push(0);
        },
    }
    proof {
        assert(out@ =~= old(out)@ + enc_opt_str(opt_view(*o)));
    }
}

pub fn get_opt_str(w: &Vec<u64>, p: usize) -> (r: Option<(Option<String>, usize)>)
    ensures
        match dec_opt_str(w@, p as int) {
            Some((s, q)) => r matches Some((x, q2)) && opt_view(x) == s && q2 == q,
            None => r is None,
        },
{
    if p >= w.len() {
        return None;
    }
    if w[p] != 0 {
        match get_str(w, p + 1) {
            Some((s, q)) => Some((Some(s), q)),
            None => None,
        }
    } else {
        Some((None, p + 1))
    }
}

pub proof fn lemma_opt_str_round_trip(w: Seq<u64>, p: int, o: Option<Seq<char>>)
    requires
        0 <= p,
        o matches Some(s) ==> s.len() <= u64::MAX,
        p + enc_opt_str(o).len() <= w.len(),
        w.subrange(p, p + enc_opt_str(o).len()) == enc_opt_str(o),
    ensures
        dec_opt_str(w, p) == Some((o, p + enc_opt_str(o).len())),
{
    assert(w[p] == enc_opt_str(o)[0]);
    if let Some(s) = o {
        lemma_split(w, p, seq![1u64], enc_str(s));
        lemma_str_round_trip(w, p + 1, s);
    }
}

/// Words of optional line metadata.
pub open spec fn enc_opt_meta(o: Option<LogMetaView>) -> Seq<u64> {
    match o {
        Some(m) => seq![1u64] + enc_str(m.category) + seq![i64_word(m.message_time), i64_word(m.system_time)]
            + enc_str(m.source) + enc_str(m.message),
        None => seq![0u64],
    }
}

pub open spec fn dec_opt_meta(w: Seq<u64>, p: int) -> Option<(Option<LogMetaView>, int)> {
    if 0 <= p < w.len() {
        if w[p] != 0 {
            match dec_str(w, p + 1) {
                Some((c, q)) => if q + 2 <= w.len() {
                    match dec_str(w, q + 2) {
                        Some((s, q2)) => match dec_str(w, q2) {
                            Some((m, q3)) => Some((
                                Some(LogMetaView { category: c, message_time: word_i64(w[q]), system_time: word_i64(w[q + 1]), source: s, message: m }),
                                q3,
                            )),
                            None => None,
                        },
                        None => None,
                    }
                } else {
                    None
                },
                None => None,
            }
        } else {
            Some((None, p + 1))
        }
    } else {
        None
    }
}

pub open spec fn meta_opt_view(o: Option<LogMeta>) -> Option<LogMetaView> {
    match o {
        Some(m) => Some(m@),
        None => None,
    }
}

pub fn put_opt_meta(out: &mut Vec<u64>, o: &Option<LogMeta>)
    ensures
        final(out)@ == old(out)@ + enc_opt_meta(meta_opt_view(*o)),
{
    match o {
        Some(m) => {
            out.push(1);
            put_str(out, &m.category);
            out.push(put_i64(m.message_time));
            out.push(put_i64(m.system_time));
            put_str(out, &m.source);
            put_str(out, &m.message);
        },
        None => {
            out.push(0);
        },
    }
    proof {
        assert(out@ =~= old(out)@ + enc_opt_meta(meta_opt_view(*o)));
    }
}

pub fn get_opt_meta(w: &Vec<u64>, p: usize) -> (r: Option<(Option<LogMeta>, usize)>)
    ensures
        match dec_opt_meta(w@, p as int) {
            Some((s, q)) => r matches Some((x, q2)) && meta_opt_view(x) == s && q2 == q,
            None => r is None,
        },
{
    if p >= w.len() {
        return None;
    }
    if w[p] == 0 {
        return Some((None, p + 1));
    }
    let (category, q) = match get_str(w, p + 1) {
        Some(x) => x,
        None => {
            return None;
        },
    };
    if q > w.len() || w.len() - q < 2 {
        return None;
    }
    let message_time = get_i64(w[q]);
    let system_time = get_i64(w[q + 1]);
    let (source, q2) = match get_str(w, q + 2) {
        Some(x) => x,
        None => {
            return None;
        },
    };
    let (message, q3) = match get_str(w, q2) {
        Some(x) => x,
        None => {
            return None;
        },
    };
    Some((Some(LogMeta { category, message_time, system_time, source, message }), q3))
}

pub proof fn lemma_opt_meta_round_trip(w: Seq<u64>, p: int, o: Option<LogMetaView>)
    requires
        0 <= p,
        o matches Some(m) ==> m.category.len() <= u64::MAX && m.source.len() <= u64::MAX && m.message.len() <= u64::MAX,
        p + enc_opt_meta(o).len() <= w.len(),
        w.subrange(p, p + enc_opt_meta(o).len()) == enc_opt_meta(o),
    ensures
        dec_opt_meta(w, p) == Some((o, p + enc_opt_meta(o).len())),
{
    assert(w[p] == enc_opt_meta(o)[0]);
    if let Some(m) = o {
        let a = seq![1u64];
        let b = enc_str(m.category);
        let c = seq![i64_word(m.message_time), i64_word(m.system_time)];
        let d = enc_str(m.source);
        let e = enc_str(m.message);
        assert(enc_opt_meta(o) == (((a + b) + c) + d) + e);
        lemma_split(w, p, ((a + b) + c) + d, e);
        lemma_split(w, p, (a + b) + c, d);
        lemma_split(w, p, a + b, c);
        lemma_split(w, p, a, b);
        lemma_str_round_trip(w, p + 1, m.category);
        let q = p + 1 + b.len();
        assert(w[q] == c[0] && w[q + 1] == c[1]) by {
            assert(w.subrange(q, q + 2)[0] == c[0]);
            assert(w.subrange(q, q + 2)[1] == c[1]);
        }
        lemma_str_round_trip(w, q + 2, m.source);
        lemma_str_round_trip(w, q + 2 + d.len(), m.message);
    }
}

pub open spec fn metrics_header(m: NodeMetrics) -> Seq<u64> {
    seq![
        opt_tag(m.node_started),
        opt_i64_word(m.node_started),
        opt_tag(m.node_process_id),
        opt_u64_word(m.node_process_id),
        status_word(m.node_status),
        bool_word(m.node_inactive),
        m.activity_gets.sample_count,
        m.activity_gets.most_recent,
        m.activity_gets.total as u64,
        (m.activity_gets.total >> 64) as u64,
        m.activity_gets.min,
        m.activity_gets.mean,
        m.activity_gets.max,
        m.activity_puts.sample_count,
        m.activity_puts.most_recent,
        m.activity_puts.total as u64,
        (m.activity_puts.total >> 64) as u64,
        m.activity_puts.min,
        m.activity_puts.mean,
        m.activity_puts.max,
        m.activity_errors.sample_count,
        m.activity_errors.most_recent,
        m.activity_errors.total as u64,
        (m.activity_errors.total >> 64) as u64,
        m.activity_errors.min,
        m.activity_errors.mean,
        m.activity_errors.max,
        m.storage_payments.sample_count,
        m.storage_payments.most_recent,
        m.storage_payments.total as u64,
        (m.storage_payments.total >> 64) as u64,
        m.storage_payments.min,
        m.storage_payments.mean,
        m.storage_payments.max,
        m.storage_cost.sample_count,
        m.storage_cost.most_recent,
        m.storage_cost.total as u64,
        (m.storage_cost.total >> 64) as u64,
        m.storage_cost.min,
        m.storage_cost.mean,
        m.storage_cost.max,
        m.peers_connected.sample_count,
        m.peers_connected.most_recent,
        m.peers_connected.total as u64,
        (m.peers_connected.total >> 64) as u64,
        m.peers_connected.min,
        m.peers_connected.mean,
        m.peers_connected.max,
        m.memory_used_mb.sample_count,
        m.memory_used_mb.most_recent,
        m.memory_used_mb.total as u64,
        (m.memory_used_mb.total >> 64) as u64,
        m.memory_used_mb.min,
        m.memory_used_mb.mean,
        m.memory_used_mb.max,
        m.used_space,
        m.max_capacity,
        m.system_cpu,
        m.system_memory,
        m.system_memory_used_mb,
        m.system_memory_usage_percent,
        m.bytes_received,
        m.bytes_transmitted,
        m.total_mb_received,
        m.total_mb_transmitted,
        m.cpu_usage_percent,
        m.cpu_usage_percent_max,
        m.bytes_read,
        m.bytes_written,
        m.total_mb_read,
        m.total_mb_written
    ]
}

/// What a decoded registry holds.
pub struct MetricsModel {
    pub node_started: Option<i64>,
    pub node_process_id: Option<u64>,
    pub node_status: NodeStatus,
    pub node_inactive: bool,
    pub activity_gets: MmmStat,
    pub activity_puts: MmmStat,
    pub activity_errors: MmmStat,
    pub storage_payments: MmmStat,
    pub storage_cost: MmmStat,
    pub peers_connected: MmmStat,
    pub memory_used_mb: MmmStat,
    pub used_space: u64,
    pub max_capacity: u64,
    pub system_cpu: u64,
    pub system_memory: u64,
    pub system_memory_used_mb: u64,
    pub system_memory_usage_percent: u64,
    pub bytes_received: u64,
    pub bytes_transmitted: u64,
    pub total_mb_received: u64,
    pub total_mb_transmitted: u64,
    pub cpu_usage_percent: u64,
    pub cpu_usage_percent_max: u64,
    pub bytes_read: u64,
    pub bytes_written: u64,
    pub total_mb_read: u64,
    pub total_mb_written: u64,
    pub running_message: Option<Seq<char>>,
    pub running_version: Option<Seq<char>>,
    pub node_peer_id: Option<Seq<char>>,
    pub interface_name: Seq<char>,
    pub parse_failure: Option<Seq<char>>,
    pub entry_metadata: Option<LogMetaView>,
    pub app_timelines: Seq<TimelineModel>,
}

pub open spec fn metrics_model(m: NodeMetrics) -> MetricsModel {
    MetricsModel {
        node_started: m.node_started,
        node_process_id: m.node_process_id,
        node_status: m.node_status,
        node_inactive: m.node_inactive,
        activity_gets: m.activity_gets,
        activity_puts: m.activity_puts,
        activity_errors: m.activity_errors,
        storage_payments: m.storage_payments,
        storage_cost: m.storage_cost,
        peers_connected: m.peers_connected,
        memory_used_mb: m.memory_used_mb,
        used_space: m.used_space,
        max_capacity: m.max_capacity,
        system_cpu: m.system_cpu,
        system_memory: m.system_memory,
        system_memory_used_mb: m.system_memory_used_mb,
        system_memory_usage_percent: m.system_memory_usage_percent,
        bytes_received: m.bytes_received,
        bytes_transmitted: m.bytes_transmitted,
        total_mb_received: m.total_mb_received,
        total_mb_transmitted: m.total_mb_transmitted,
        cpu_usage_percent: m.cpu_usage_percent,
        cpu_usage_percent_max: m.cpu_usage_percent_max,
        bytes_read: m.bytes_read,
        bytes_written: m.bytes_written,
        total_mb_read: m.total_mb_read,
        total_mb_written: m.total_mb_written,
        running_message: opt_view(m.running_message),
        running_version: opt_view(m.running_version),
        node_peer_id: opt_view(m.node_peer_id),
        interface_name: m.interface_name@,
        parse_failure: opt_view(m.parse_failure),
        entry_metadata: match m.entry_metadata { Some(e) => Some(e@), None => None },
        app_timelines: app_timelines_model(m.app_timelines),
    }
}

#[verifier::opaque]
pub open spec fn enc_metrics(m: NodeMetrics) -> Seq<u64> {
    metrics_header(m) + enc_opt_str(opt_view(m.running_message)) + enc_opt_str(opt_view(m.running_version))
        + enc_opt_str(opt_view(m.node_peer_id)) + enc_str(m.interface_name@) + enc_opt_str(opt_view(m.parse_failure))
        + enc_opt_meta(meta_opt_view(m.entry_metadata)) + enc_app_timelines(m.app_timelines)
}

#[verifier::opaque]
pub open spec fn dec_metrics(w: Seq<u64>, p: int) -> Option<(MetricsModel, int)> {
    if 0 <= p && p + 71 <= w.len() {
        match dec_opt_str(w, p + 71) {
            Some((rm, q1)) => match dec_opt_str(w, q1) {
                Some((rv, q2)) => match dec_opt_str(w, q2) {
                    Some((pid, q3)) => match dec_str(w, q3) {
                        Some((ifn, q4)) => match dec_opt_str(w, q4) {
                            Some((pf, q5)) => match dec_opt_meta(w, q5) {
                                Some((em, q6)) => match dec_app_timelines(w, q6) {
                                    Some((ats, q7)) => Some((
                                        MetricsModel {
                                            node_started: word_opt_i64(w[p], w[p + 1]),
                                            node_process_id: if w[p + 2] != 0 { Some(w[p + 3]) } else { None },
                                            node_status: word_status(w[p + 4]),
                                            node_inactive: w[p + 5] != 0,
                                            activity_gets: stat_at(w, p + 6),
                                            activity_puts: stat_at(w, p + 13),
                                            activity_errors: stat_at(w, p + 20),
                                            storage_payments: stat_at(w, p + 27),
                                            storage_cost: stat_at(w, p + 34),
                                            peers_connected: stat_at(w, p + 41),
                                            memory_used_mb: stat_at(w, p + 48),
                                            used_space: w[p + 55],
                                            max_capacity: w[p + 56],
                                            system_cpu: w[p + 57],
                                            system_memory: w[p + 58],
                                            system_memory_used_mb: w[p + 59],
                                            system_memory_usage_percent: w[p + 60],
                                            bytes_received: w[p + 61],
                                            bytes_transmitted: w[p + 62],
                                            total_mb_received: w[p + 63],
                                            total_mb_transmitted: w[p + 64],
                                            cpu_usage_percent: w[p + 65],
                                            cpu_usage_percent_max: w[p + 66],
                                            bytes_read: w[p + 67],
                                            bytes_written: w[p + 68],
                                            total_mb_read: w[p + 69],
                                            total_mb_written: w[p + 70],
                                            running_message: rm,
                                            running_version: rv,
                                            node_peer_id: pid,
                                            interface_name: ifn,
                                            parse_failure: pf,
                                            entry_metadata: em,
                                            app_timelines: ats,
                                        },
                                        q7,
                                    )),
                                    None => None,
                                },
                                None => None,
                            },
                            None => None,
                        },
                        None => None,
                    },
                    None => None,
                },
                None => None,
            },
            None => None,
        }
    } else {
        None
    }
}

/// The fixed block of a registry's words.
#[verifier::rlimit(100)]
fn metrics_header_words(m: &NodeMetrics) -> (r: Vec<u64>)
    ensures
        r@ == metrics_header(*m),
{
    let r = vec![
        if m.node_started.is_some() { 1 } else { 0 },
        match m.node_started { Some(v) => put_i64(v), None => 0 },
        if m.node_process_id.is_some() { 1 } else { 0 },
        match m.node_process_id { Some(v) => v, None => 0 },
        put_status(m.node_status),
        if m.node_inactive { 1 } else { 0 },
        m.activity_gets.sample_count,
        m.activity_gets.most_recent,
        m.activity_gets.total as u64,
        (m.activity_gets.total >> 64) as u64,
        m.activity_gets.min,
        m.activity_gets.mean,
        m.activity_gets.max,
        m.activity_puts.sample_count,
        m.activity_puts.most_recent,
        m.activity_puts.total as u64,
        (m.activity_puts.total >> 64) as u64,
        m.activity_puts.min,
        m.activity_puts.mean,
        m.activity_puts.max,
        m.activity_errors.sample_count,
        m.activity_errors.most_recent,
        m.activity_errors.total as u64,
        (m.activity_errors.total >> 64) as u64,
        m.activity_errors.min,
        m.activity_errors.mean,
        m.activity_errors.max,
        m.storage_payments.sample_count,
        m.storage_payments.most_recent,
        m.storage_payments.total as u64,
        (m.storage_payments.total >> 64) as u64,
        m.storage_payments.min,
        m.storage_payments.mean,
        m.storage_payments.max,
        m.storage_cost.sample_count,
        m.storage_cost.most_recent,
        m.storage_cost.total as u64,
        (m.storage_cost.total >> 64) as u64,
        m.storage_cost.min,
        m.storage_cost.mean,
        m.storage_cost.max,
        m.peers_connected.sample_count,
        m.peers_connected.most_recent,
        m.peers_connected.total as u64,
        (m.peers_connected.total >> 64) as u64,
        m.peers_connected.min,
        m.peers_connected.mean,
        m.peers_connected.max,
        m.memory_used_mb.sample_count,
        m.memory_used_mb.most_recent,
        m.memory_used_mb.total as u64,
        (m.memory_used_mb.total >> 64) as u64,
        m.memory_used_mb.min,
        m.memory_used_mb.mean,
        m.memory_used_mb.max,
        m.used_space,
        m.max_capacity,
        m.system_cpu,
        m.system_memory,
        m.system_memory_used_mb,
        m.system_memory_usage_percent,
        m.bytes_received,
        m.bytes_transmitted,
        m.total_mb_received,
        m.total_mb_transmitted,
        m.cpu_usage_percent,
        m.cpu_usage_percent_max,
        m.bytes_read,
        m.bytes_written,
        m.total_mb_read,
        m.total_mb_written
    ];
    proof {
        assert(r@ =~= metrics_header(*m));
    }
    r
}

/// Appends all of `h`.
fn put_all(out: &mut Vec<u64>, h: &Vec<u64>)
    ensures
        final(out)@ == old(out)@ + h@,
{
    let mut i: usize = 0;
    while i < h.len()
        invariant
            i <= h@.len(),
            out@ == old(out)@ + h@.subrange(0, i as int),
        decreases h@.len() - i,
    {
        out.push(h[i]);
        i = i + 1;
        proof {
            assert(out@ =~= old(out)@ + h@.subrange(0, i as int));
        }
    }
    proof {
        assert(h@.subrange(0, i as int) =~= h@);
    }
}

pub fn put_metrics(out: &mut Vec<u64>, m: &NodeMetrics)
    requires
        m.wf(),
    ensures
        final(out)@ == old(out)@ + enc_metrics(*m),
{
    let h = metrics_header_words(m);
    put_all(out, &h);
    proof {
        assert(out@ =~= old(out)@ + metrics_header(*m));
    }
    put_opt_str(out, &m.running_message);
    put_opt_str(out, &m.running_version);
    put_opt_str(out, &m.node_peer_id);
    put_str(out, &m.interface_name);
    put_opt_str(out, &m.parse_failure);
    put_opt_meta(out, &m.entry_metadata);
    put_app_timelines(out, &m.app_timelines);
    proof {
        reveal(enc_metrics);
        assert(out@ =~= old(out)@ + enc_metrics(*m));
    }
}

pub fn get_metrics(w: &Vec<u64>, p: usize) -> (r: Option<(NodeMetrics, usize)>)
    ensures
        match dec_metrics(w@, p as int) {
            Some((m, q)) => r matches Some((x, q2)) && metrics_model(x) == m && q2 == q,
            None => r is None,
        },
{
    proof {
        reveal(dec_metrics);
    }
    if p > w.len() || w.len() - p < 71 {
        return None;
    }
    let (running_message, q1) = match get_opt_str(w, p + 71) { Some(x) => x, None => { return None; } };
    let (running_version, q2) = match get_opt_str(w, q1) { Some(x) => x, None => { return None; } };
    let (node_peer_id, q3) = match get_opt_str(w, q2) { Some(x) => x, None => { return None; } };
    let (interface_name, q4) = match get_str(w, q3) { Some(x) => x, None => { return None; } };
    let (parse_failure, q5) = match get_opt_str(w, q4) { Some(x) => x, None => { return None; } };
    let (entry_metadata, q6) = match get_opt_meta(w, q5) { Some(x) => x, None => { return None; } };
    let (app_timelines, q7) = match get_app_timelines(w, q6) { Some(x) => x, None => { return None; } };
    let m = NodeMetrics {
        node_started: if w[p] != 0 { Some(get_i64(w[p + 1])) } else { None },
        node_process_id: if w[p + 2] != 0 { Some(w[p + 3]) } else { None },
        node_status: get_status(w[p + 4]),
        node_inactive: w[p + 5] != 0,
        activity_gets: get_stat(w, p + 6),
        activity_puts: get_stat(w, p + 13),
        activity_errors: get_stat(w, p + 20),
        storage_payments: get_stat(w, p + 27),
        storage_cost: get_stat(w, p + 34),
        peers_connected: get_stat(w, p + 41),
        memory_used_mb: get_stat(w, p + 48),
        used_space: w[p + 55],
        max_capacity: w[p + 56],
        system_cpu: w[p + 57],
        system_memory: w[p + 58],
        system_memory_used_mb: w[p + 59],
        system_memory_usage_percent: w[p + 60],
        bytes_received: w[p + 61],
        bytes_transmitted: w[p + 62],
        total_mb_received: w[p + 63],
        total_mb_transmitted: w[p + 64],
        cpu_usage_percent: w[p + 65],
        cpu_usage_percent_max: w[p + 66],
        bytes_read: w[p + 67],
        bytes_written: w[p + 68],
        total_mb_read: w[p + 69],
        total_mb_written: w[p + 70],
        running_message,
        running_version,
        node_peer_id,
        interface_name,
        parse_failure,
        entry_metadata,
        app_timelines,
    };
    Some((m, q7))
}

/// Sizes of a registry within what a word can count.
pub open spec fn metrics_fit(m: NodeMetrics) -> bool {
    &&& app_timelines_fit(m.app_timelines)
    &&& m.app_timelines.timelines@.len() <= u64::MAX
    &&& m.interface_name@.len() <= u64::MAX
    &&& (m.running_message matches Some(s) ==> s@.len() <= u64::MAX)
    &&& (m.running_version matches Some(s) ==> s@.len() <= u64::MAX)
    &&& (m.node_peer_id matches Some(s) ==> s@.len() <= u64::MAX)
    &&& (m.parse_failure matches Some(s) ==> s@.len() <= u64::MAX)
    &&& (m.entry_metadata matches Some(e) ==> e.category@.len() <= u64::MAX && e.source@.len() <= u64::MAX
        && e.message@.len() <= u64::MAX)
}

/// The fixed block of a registry's words reads back as its fields.
#[verifier::rlimit(100)]
pub proof fn lemma_metrics_header(w: Seq<u64>, p: int, m: NodeMetrics)
    requires
        0 <= p,
        p + 71 <= w.len(),
        w.subrange(p, p + 71) == metrics_header(m),
    ensures
        word_opt_i64(w[p], w[p + 1]) == m.node_started,
        (if w[p + 2] != 0 { Some(w[p + 3]) } else { None }) == m.node_process_id,
        word_status(w[p + 4]) == m.node_status,
        (w[p + 5] != 0) == m.node_inactive,
        stat_at(w, p + 6) == m.activity_gets,
        stat_at(w, p + 13) == m.activity_puts,
        stat_at(w, p + 20) == m.activity_errors,
        stat_at(w, p + 27) == m.storage_payments,
        stat_at(w, p + 34) == m.storage_cost,
        stat_at(w, p + 41) == m.peers_connected,
        stat_at(w, p + 48) == m.memory_used_mb,
        w[p + 55] == m.used_space,
        w[p + 56] == m.max_capacity,
        w[p + 57] == m.system_cpu,
        w[p + 58] == m.system_memory,
        w[p + 59] == m.system_memory_used_mb,
        w[p + 60] == m.system_memory_usage_percent,
        w[p + 61] == m.bytes_received,
        w[p + 62] == m.bytes_transmitted,
        w[p + 63] == m.total_mb_received,
        w[p + 64] == m.total_mb_transmitted,
        w[p + 65] == m.cpu_usage_percent,
        w[p + 66] == m.cpu_usage_percent_max,
        w[p + 67] == m.bytes_read,
        w[p + 68] == m.bytes_written,
        w[p + 69] == m.total_mb_read,
        w[p + 70] == m.total_mb_written,
{
    let h = metrics_header(m);
    assert forall|i: int| 0 <= i < 71 implies w[p + i] == #[trigger] h[i] by {
        assert(w.subrange(p, p + 71)[i] == h[i]);
    }
    lemma_u128_split(m.activity_gets.total);
    lemma_u128_split(m.activity_puts.total);
    lemma_u128_split(m.activity_errors.total);
    lemma_u128_split(m.storage_payments.total);
    lemma_u128_split(m.storage_cost.total);
    lemma_u128_split(m.peers_connected.total);
    lemma_u128_split(m.memory_used_mb.total);
}

#[verifier::rlimit(100)]
pub proof fn lemma_metrics_round_trip(w: Seq<u64>, p: int, m: NodeMetrics)
    requires
        0 <= p,
        metrics_fit(m),
        p + enc_metrics(m).len() <= w.len(),
        w.subrange(p, p + enc_metrics(m).len()) == enc_metrics(m),
    ensures
        dec_metrics(w, p) == Some((metrics_model(m), p + enc_metrics(m).len())),
{
    reveal(enc_metrics);
    reveal(dec_metrics);
    let h = metrics_header(m);
    let a = enc_opt_str(opt_view(m.running_message));
    let b = enc_opt_str(opt_view(m.running_version));
    let c = enc_opt_str(opt_view(m.node_peer_id));
    let d = enc_str(m.interface_name@);
    let e = enc_opt_str(opt_view(m.parse_failure));
    let f = enc_opt_meta(meta_opt_view(m.entry_metadata));
    let g = enc_app_timelines(m.app_timelines);
    assert(enc_metrics(m) == ((((((h + a) + b) + c) + d) + e) + f) + g);
    lemma_split(w, p, (((((h + a) + b) + c) + d) + e) + f, g);
    lemma_split(w, p, ((((h + a) + b) + c) + d) + e, f);
    lemma_split(w, p, (((h + a) + b) + c) + d, e);
    lemma_split(w, p, ((h + a) + b) + c, d);
    lemma_split(w, p, (h + a) + b, c);
    lemma_split(w, p, h + a, b);
    lemma_split(w, p, h, a);
    lemma_metrics_header(w, p, m);
    let q1 = p + 71;
    lemma_opt_str_round_trip(w, q1, opt_view(m.running_message));
    lemma_opt_str_round_trip(w, q1 + a.len(), opt_view(m.running_version));
    lemma_opt_str_round_trip(w, q1 + a.len() + b.len(), opt_view(m.node_peer_id));
    lemma_str_round_trip(w, q1 + a.len() + b.len() + c.len(), m.interface_name@);
    lemma_opt_str_round_trip(w, q1 + a.len() + b.len() + c.len() + d.len(), opt_view(m.parse_failure));
    lemma_opt_meta_round_trip(w, q1 + a.len() + b.len() + c.len() + d.len() + e.len(), meta_opt_view(m.entry_metadata));
    lemma_app_timelines_round_trip(w, q1 + a.len() + b.len() + c.len() + d.len() + e.len() + f.len(), m.app_timelines);
}

fn check_stat(s: &MmmStat) -> (r: bool)
    ensures
        r == s.wf(),
{
    if s.sample_count == 0 {
        return s.total == 0 && s.min == u64::MAX && s.mean == 0 && s.max == 0;
    }
    let c = s.sample_count as u128;
    proof {
        assert((s.sample_count as int) * (s.min as int) <= u128::MAX) by (nonlinear_arith)
            requires
                s.sample_count <= u64::MAX,
                s.min <= u64::MAX,
        ;
        assert((s.sample_count as int) * (s.max as int) <= u128::MAX) by (nonlinear_arith)
            requires
                s.sample_count <= u64::MAX,
                s.max <= u64::MAX,
        ;
    }
    s.min <= s.max && c * (s.min as u128) <= s.total && s.total <= c * (s.max as u128) && s.total / c == s.mean as u128
}

fn check_slot(s: &SlotStat) -> (r: bool)
    ensures
        r == crate::timelines::slot_consistent(*s),
{
    if s.needs_init {
        return true;
    }
    if s.count == 0 {
        return false;
    }
    let c = s.count as u128;
    proof {
        assert((s.count as int) * (s.min as int) <= u128::MAX) by (nonlinear_arith)
            requires
                s.count <= u64::MAX,
                s.min <= u64::MAX,
        ;
        assert((s.count as int) * (s.max as int) <= u128::MAX) by (nonlinear_arith)
            requires
                s.count <= u64::MAX,
                s.max <= u64::MAX,
        ;
    }
    s.min <= s.max && c * (s.min as u128) <= s.total && s.total <= c * (s.max as u128) && s.total / c == s.mean as u128
}

fn ring_total(v: &Vec<u64>) -> (r: u128)
    ensures
        r == crate::timelines::ring_sum(v@),
{
    let mut t: u128 = 0;
    let mut i: usize = 0;
    while i < v.len()
        invariant
            i <= v@.len(),
            t == crate::timelines::ring_sum(v@.subrange(0, i as int)),
        decreases v@.len() - i,
    {
        proof {
            let s = v@.subrange(0, i + 1);
            assert(s.drop_last() =~= v@.subrange(0, i as int));
            crate::timelines::lemma_ring_sum_bound(s);
            crate::timelines::lemma_usize_bound_sum(i + 1);
        }
        t = t + v[i] as u128;
        i = i + 1;
    }
    proof {
        assert(v@.subrange(0, i as int) =~= v@);
    }
    t
}

fn check_buckets(b: &Buckets, cumulative: bool) -> (r: bool)
    ensures
        r == (b.wf() && (cumulative ==> b.total_tracks_ring())),
{
    if !(b.bucket_duration > 0 && b.num_buckets >= 1) {
        return false;
    }
    if b.is_mmm {
        if !(b.stats.len() == b.num_buckets && b.buckets.len() == 0) {
            return false;
        }
    } else {
        if !(b.buckets.len() == b.num_buckets && b.stats.len() == 0) {
            return false;
        }
    }
    let mut i: usize = 0;
    while i < b.stats.len()
        invariant
            i <= b.stats@.len(),
            forall|k: int| 0 <= k < i ==> crate::timelines::slot_consistent(#[trigger] b.stats@[k]),
        decreases b.stats@.len() - i,
    {
        if !check_slot(&b.stats[i]) {
            return false;
        }
        i = i + 1;
    }
    if cumulative {
        ring_total(&b.buckets) == b.values_total
    } else {
        true
    }
}

fn check_timeline(t: &Timeline) -> (r: bool)
    ensures
        r == t.wf(),
{
    if t.bucket_names.len() != t.bucket_sets.len() {
        return false;
    }
    let mut i: usize = 0;
    while i < t.bucket_sets.len()
        invariant
            i <= t.bucket_sets@.len(),
            forall|k: int| 0 <= k < i ==> {
                &&& (#[trigger] t.bucket_sets@[k]).wf()
                &&& t.bucket_sets@[k].is_mmm == t.is_mmm
                &&& (t.is_cumulative ==> t.bucket_sets@[k].total_tracks_ring())
            },
        decreases t.bucket_sets@.len() - i,
    {
        if !(check_buckets(&t.bucket_sets[i], t.is_cumulative) && t.bucket_sets[i].is_mmm == t.is_mmm) {
            return false;
        }
        i = i + 1;
    }
    let n = t.bucket_names.len();
    let mut a: usize = 0;
    while a < n
        invariant
            n == t.bucket_names@.len(),
            a <= n,
            forall|x: int, y: int| 0 <= x < y < n && x < a ==>
                (#[trigger] t.bucket_names@[x])@ != (#[trigger] t.bucket_names@[y])@,
        decreases n - a,
    {
        let mut b: usize = a + 1;
        while b < n
            invariant
                n == t.bucket_names@.len(),
                a < n,
                a + 1 <= b <= n,
                forall|x: int, y: int| 0 <= x < y < n && x < a ==>
                    (#[trigger] t.bucket_names@[x])@ != (#[trigger] t.bucket_names@[y])@,
                forall|y: int| a < y < b ==> t.bucket_names@[a as int]@ != (#[trigger] t.bucket_names@[y])@,
            decreases n - b,
        {
            if t.bucket_names[a].eq(&t.bucket_names[b]) {
                return false;
            }
            b = b + 1;
        }
        a = a + 1;
    }
    true
}

fn check_app_timelines(a: &AppTimelines) -> (r: bool)
    ensures
        r == a.wf(),
{
    if a.timelines.len() != NUM_TIMELINES {
        return false;
    }
    let mut i: usize = 0;
    while i < NUM_TIMELINES
        invariant
            a.timelines@.len() == NUM_TIMELINES,
            i <= NUM_TIMELINES,
            forall|k: int| 0 <= k < i ==> {
                &&& (#[trigger] a.timelines@[k]).wf()
                &&& a.timelines@[k].is_mmm == crate::app_timelines::timeline_is_mmm(k)
                &&& a.timelines@[k].is_cumulative == crate::app_timelines::timeline_is_cumulative(k)
            },
        decreases NUM_TIMELINES - i,
    {
        let t = &a.timelines[i];
        let mmm = i == 1 || i == 4 || i == 5;
        let cum = i == 0 || i == 2 || i == 3 || i == 6;
        if !(check_timeline(t) && t.is_mmm == mmm && t.is_cumulative == cum) {
            return false;
        }
        i = i + 1;
    }
    true
}

/// Whether a registry is well formed (see `NodeMetrics::wf`).
pub fn check_metrics(m: &NodeMetrics) -> (r: bool)
    ensures
        r == m.wf(),
{
    if !check_stat(&m.activity_gets) {
        return false;
    }
    if !check_stat(&m.activity_puts) {
        return false;
    }
    if !check_stat(&m.activity_errors) {
        return false;
    }
    if !check_stat(&m.storage_payments) {
        return false;
    }
    if !check_stat(&m.storage_cost) {
        return false;
    }
    if !check_stat(&m.peers_connected) {
        return false;
    }
    if !check_stat(&m.memory_used_mb) {
        return false;
    }
    check_app_timelines(&m.app_timelines)
}

/// Registries with the same model are equally well formed.
pub proof fn lemma_wf_by_model(x: NodeMetrics, y: NodeMetrics)
    requires
        metrics_model(x) == metrics_model(y),
        x.wf(),
    ensures
        y.wf(),
{
    let xa = x.app_timelines.timelines@;
    let ya = y.app_timelines.timelines@;
    assert(xa.len() == ya.len()) by {
        assert(app_timelines_model(x.app_timelines).len() == app_timelines_model(y.app_timelines).len());
    }
    assert forall|i: int| 0 <= i < NUM_TIMELINES implies {
        &&& (#[trigger] ya[i]).wf()
        &&& ya[i].is_mmm == crate::app_timelines::timeline_is_mmm(i)
        &&& ya[i].is_cumulative == crate::app_timelines::timeline_is_cumulative(i)
    } by {
        assert(app_timelines_model(x.app_timelines)[i] == app_timelines_model(y.app_timelines)[i]);
        let tx = xa[i];
        let ty = ya[i];
        assert(timeline_model(tx) == timeline_model(ty));
        assert(tx.wf());
        assert(ty.bucket_sets@.len() == tx.bucket_sets@.len()) by {
            assert(timeline_model(tx).bucket_sets.len() == timeline_model(ty).bucket_sets.len());
        }
        assert(ty.bucket_names@.len() == tx.bucket_names@.len()) by {
            assert(timeline_model(tx).bucket_names.len() == timeline_model(ty).bucket_names.len());
        }
        assert forall|k: int| 0 <= k < ty.bucket_sets@.len() implies {
            &&& (#[trigger] ty.bucket_sets@[k]).wf()
            &&& ty.bucket_sets@[k].is_mmm == ty.is_mmm
            &&& (ty.is_cumulative ==> ty.bucket_sets@[k].total_tracks_ring())
        } by {
            assert(timeline_model(tx).bucket_sets[k] == timeline_model(ty).bucket_sets[k]);
            assert(tx.bucket_sets@[k].wf());
        }
        assert forall|a: int, b: int| 0 <= a < b < ty.bucket_names@.len() implies
            (#[trigger] ty.bucket_names@[a])@ != (#[trigger] ty.bucket_names@[b])@ by {
            assert(timeline_model(tx).bucket_names[a] == timeline_model(ty).bucket_names[a]);
            assert(timeline_model(tx).bucket_names[b] == timeline_model(ty).bucket_names[b]);
            assert(tx.bucket_names@[a]@ != tx.bucket_names@[b]@);
        }
    }
}

/// Marks the start of a checkpoint and its layout version.
pub const CHECKPOINT_MAGIC: u64 = 0x7664_6173_685f_636b;
pub const CHECKPOINT_VERSION: u64 = 1;

/// The words of a checkpoint: a marker, the version, the time of the last entry it covers,
/// the monitor's index, then the registry.
pub open spec fn enc_checkpoint(latest: Option<i64>, index: usize, m: NodeMetrics) -> Seq<u64> {
    seq![CHECKPOINT_MAGIC, CHECKPOINT_VERSION, opt_tag(latest), opt_i64_word(latest), index as u64] + enc_metrics(m)
}

/// What a checkpoint holds.
pub struct CheckpointModel {
    pub latest_entry_time: Option<i64>,
    pub monitor_index: usize,
    pub metrics: MetricsModel,
}

/// Reads a whole checkpoint; `None` when the marker, version or layout is wrong or words
/// are left over.
pub open spec fn dec_checkpoint(w: Seq<u64>) -> Option<CheckpointModel> {
    if w.len() >= 5 && w[0] == CHECKPOINT_MAGIC && w[1] == CHECKPOINT_VERSION && w[4] <= usize::MAX {
        match dec_metrics(w, 5) {
            Some((m, q)) => if q == w.len() {
                Some(CheckpointModel { latest_entry_time: word_opt_i64(w[2], w[3]), monitor_index: w[4] as usize, metrics: m })
            } else {
                None
            },
            None => None,
        }
    } else {
        None
    }
}

pub open spec fn checkpoint_model(c: LogfileCheckpoint) -> CheckpointModel {
    CheckpointModel {
        latest_entry_time: c.latest_entry_time,
        monitor_index: c.monitor_index,
        metrics: metrics_model(c.monitor_metrics),
    }
}

/// The words of a checkpoint of `metrics`, covering entries up to `latest`.
pub fn encode_checkpoint(latest: Option<i64>, index: usize, metrics: &NodeMetrics) -> (r: Vec<u64>)
    requires
        metrics.wf(),
    ensures
        r@ == enc_checkpoint(latest, index, *metrics),
{
    let mut out: Vec<u64> = Vec::new();
    out.push(CHECKPOINT_MAGIC);
    out.push(CHECKPOINT_VERSION);
    out.push(if latest.is_some() { 1 } else { 0 });
    out.push(match latest { Some(v) => put_i64(v), None => 0 });
    out.push(index as u64);
    put_metrics(&mut out, metrics);
    proof {
        assert(out@ =~= enc_checkpoint(latest, index, *metrics));
    }
    out
}

/// Reads a checkpoint back: `None` when the words are no checkpoint (see
/// `dec_checkpoint`) or the registry they hold is not well formed.
pub fn decode_checkpoint(w: &Vec<u64>) -> (r: Option<LogfileCheckpoint>)
    ensures
        r matches Some(c) ==> c.monitor_metrics.wf() && dec_checkpoint(w@) == Some(checkpoint_model(c)),
        dec_checkpoint(w@) is None ==> r is None,
        forall|x: NodeMetrics| #[trigger] metrics_model(x) == dec_checkpoint(w@)->0.metrics && dec_checkpoint(w@) is Some && x.wf()
            ==> r is Some,
{
    if w.len() < 5 || w[0] != CHECKPOINT_MAGIC || w[1] != CHECKPOINT_VERSION || w[4] > usize::MAX as u64 {
        return None;
    }
    let (metrics, q) = match get_metrics(w, 5) {
        Some(x) => x,
        None => {
            return None;
        },
    };
    if q != w.len() {
        return None;
    }
    let ok = check_metrics(&metrics);
    proof {
        assert forall|x: NodeMetrics| #[trigger] metrics_model(x) == dec_checkpoint(w@)->0.metrics && dec_checkpoint(w@) is Some && x.wf()
            implies metrics.wf() by {
            lemma_wf_by_model(x, metrics);
        }
    }
    if !ok {
        return None;
    }
    let latest = if w[2] != 0 { Some(get_i64(w[3])) } else { None };
    Some(LogfileCheckpoint { latest_entry_time: latest, monitor_index: w[4] as usize, monitor_metrics: metrics })
}

/// Restoring a saved checkpoint gives back what was saved: the same time of last entry,
/// the same index, and a registry equal to the saved one in every field.
#[verifier::rlimit(100)]
pub proof fn lemma_checkpoint_round_trip(latest: Option<i64>, index: usize, m: NodeMetrics)
    requires
        m.wf(),
        metrics_fit(m),
    ensures
        dec_checkpoint(enc_checkpoint(latest, index, m)) == Some(CheckpointModel {
            latest_entry_time: latest,
            monitor_index: index,
            metrics: metrics_model(m),
        }),
{
    let w = enc_checkpoint(latest, index, m);
    let h = seq![CHECKPOINT_MAGIC, CHECKPOINT_VERSION, opt_tag(latest), opt_i64_word(latest), index as u64];
    assert(w == h + enc_metrics(m));
    assert(w.subrange(0, w.len() as int) =~= w);
    lemma_split(w, 0, h, enc_metrics(m));
    lemma_metrics_round_trip(w, 5, m);
    let r = dec_metrics(w, 5);
    assert(r == Some((metrics_model(m), w.len() as int)));
    assert(w[0] == h[0] && w[1] == h[1] && w[2] == h[2] && w[3] == h[3] && w[4] == h[4]);
    assert(word_opt_i64(h[2], h[3]) == latest);
}

/// The checkpoint of a monitor: the embedded time of its last entry, its index and its
/// registry.
pub fn save_checkpoint(monitor: &LogMonitor) -> (r: Vec<u64>)
    requires
        monitor.wf(),
    ensures
        r@ == enc_checkpoint(
            match monitor.metrics.entry_metadata {
                Some(m) => Some(m.message_time),
                None => None,
            },
            monitor.index,
            monitor.metrics,
        ),
{
    let latest = match &monitor.metrics.entry_metadata {
        Some(m) => Some(m.message_time),
        None => None,
    };
    encode_checkpoint(latest, monitor.index, &monitor.metrics)
}

/// Restores `monitor` from checkpoint words: on success it takes the checkpoint's index,
/// time of last entry and registry and `true` is returned; otherwise it is left as it was.
pub fn restore_checkpoint(monitor: &mut LogMonitor, words: &Vec<u64>) -> (r: bool)
    requires
        old(monitor).wf(),
    ensures
        final(monitor).wf(),
        !r ==> *final(monitor) == *old(monitor),
        dec_checkpoint(words@) is None ==> !r,
        (dec_checkpoint(words@) matches Some(c) && exists|x: NodeMetrics| x.wf() && #[trigger] metrics_model(x) == c.metrics) ==> r,
        r ==> {
            &&& dec_checkpoint(words@) matches Some(c)
            &&& final(monitor).index == c.monitor_index
            &&& final(monitor).latest_checkpoint_time == c.latest_entry_time
            &&& metrics_model(final(monitor).metrics) == c.metrics
            &&& *final(monitor) == (LogMonitor {
                index: final(monitor).index,
                latest_checkpoint_time: final(monitor).latest_checkpoint_time,
                metrics: final(monitor).metrics,
                ..*old(monitor)
            })
        },
{
    let d = decode_checkpoint(words);
    proof {
        if dec_checkpoint(words@) is Some && exists|x: NodeMetrics| x.wf() && #[trigger] metrics_model(x) == dec_checkpoint(words@)->0.metrics {
            let x = choose|x: NodeMetrics| x.wf() && #[trigger] metrics_model(x) == dec_checkpoint(words@)->0.metrics;
            assert(d is Some);
        }
    }
    match d {
        Some(c) => {
            monitor.from_checkpoint(c);
            true
        },
        None => false,
    }
}

} // verus!
