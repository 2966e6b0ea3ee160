//! Character-level helpers for reading log lines: search, trimming, tokens and numbers.
use vstd::prelude::*;

verus! {

/// Relies on `str::chars`: the characters of the string, in order.
#[verifier::external_body]
pub(crate) fn chars_of(s: &str) -> (r: Vec<char>)
    ensures
        r@ == s@,
{
    s.chars().collect()
}

/// Relies on `String: FromIterator<char>`: the string made of exactly these characters.
#[verifier::external_body]
pub(crate) fn string_of(v: &Vec<char>, start: usize, end: usize) -> (r: String)
    requires
        start <= end <= v@.len(),
    ensures
        r@ == v@.subrange(start as int, end as int),
{
    v[start..end].iter().collect()
}

/// `n` occurs in `h` at position `i`.
pub open spec fn matches_at(h: Seq<char>, n: Seq<char>, i: int) -> bool {
    0 <= i && i + n.len() <= h.len() && h.subrange(i, i + n.len()) == n
}

/// The first position at or after `i` where `n` occurs in `h`.
pub open spec fn find_from(h: Seq<char>, n: Seq<char>, i: int) -> Option<int>
    decreases h.len() + 1 - i,
{
    if i < 0 || i + n.len() > h.len() {
        None
    } else if matches_at(h, n, i) {
        Some(i)
    } else {
        find_from(h, n, i + 1)
    }
}

/// `n` occurs somewhere in `h`.
pub open spec fn contains(h: Seq<char>, n: Seq<char>) -> bool {
    find_from(h, n, 0) is Some
}

pub proof fn lemma_find_from_matches(h: Seq<char>, n: Seq<char>, i: int)
    ensures
        find_from(h, n, i) matches Some(k) ==> i <= k && matches_at(h, n, k),
    decreases h.len() + 1 - i,
{
    if !(i < 0 || i + n.len() > h.len()) && !matches_at(h, n, i) {
        lemma_find_from_matches(h, n, i + 1);
    }
}

/// Whether `n` occurs in `h` at `i`.
fn occurs_at(h: &Vec<char>, n: &Vec<char>, i: usize) -> (r: bool)
    requires
        i + n@.len() <= h@.len(),
    ensures
        r == matches_at(h@, n@, i as int),
{
    let hl = h.len();
    let mut j: usize = 0;
    while j < n.len()
        invariant
            i + n@.len() <= h@.len(),
            hl == h@.len(),
            j <= n@.len(),
            forall|k: int| 0 <= k < j ==> h@[i + k] == n@[k],
        decreases n@.len() - j,
    {
        assert(i + j < h@.len());
        if h[i + j] != n[j] {
            proof {
                assert(h@.subrange(i as int, i + n@.len())[j as int] != n@[j as int]);
            }
            return false;
        }
        j = j + 1;
    }
    assert(h@.subrange(i as int, i + n@.len()) =~= n@);
    true
}

/// First position at or after `from` where `n` occurs in `h`.
pub fn find(h: &Vec<char>, n: &Vec<char>, from: usize) -> (r: Option<usize>)
    ensures
        as_index(r) == find_from(h@, n@, from as int),
{
    if n.len() > h.len() {
        return None;
    }
    let last = h.len() - n.len();
    if from > last {
        return None;
    }
    let mut i = from;
    loop
        invariant
            last == h@.len() - n@.len(),
            from <= i <= last,
            find_from(h@, n@, from as int) == find_from(h@, n@, i as int),
        decreases last - i,
    {
        if occurs_at(h, n, i) {
            return Some(i);
        }
        if i == last {
            return None;
        }
        i = i + 1;
    }
}

/// An optional position as a mathematical integer.
pub open spec fn as_index(r: Option<usize>) -> Option<int> {
    match r {
        Some(i) => Some(i as int),
        None => None,
    }
}

/// Whether the literal `pattern` occurs in `line`.
pub fn line_contains(line: &Vec<char>, pattern: &str) -> (r: bool)
    ensures
        r == contains(line@, pattern@),
{
    let p = chars_of(pattern);
    find(line, &p, 0).is_some()
}

/// Unicode white space, as `char::is_whitespace` and `str::trim` take it.
pub open spec fn is_ws(c: char) -> bool {
    c == '\t' || c == '\n' || c == '\u{0B}' || c == '\u{0C}' || c == '\r' || c == ' '
        || c == '\u{85}' || c == '\u{A0}' || c == '\u{1680}' || ('\u{2000}' <= c && c <= '\u{200A}')
        || c == '\u{2028}' || c == '\u{2029}' || c == '\u{202F}' || c == '\u{205F}' || c == '\u{3000}'
}

fn is_ws_char(c: char) -> (r: bool)
    ensures
        r == is_ws(c),
{
    c == '\t' || c == '\n' || c == '\u{0B}' || c == '\u{0C}' || c == '\r' || c == ' '
        || c == '\u{85}' || c == '\u{A0}' || c == '\u{1680}' || ('\u{2000}' <= c && c <= '\u{200A}')
        || c == '\u{2028}' || c == '\u{2029}' || c == '\u{202F}' || c == '\u{205F}' || c == '\u{3000}'
}

/// Position of the first character of `s` at or after `i` that is not white space.
pub open spec fn skip_ws(s: Seq<char>, i: int) -> int
    decreases s.len() - i,
{
    if 0 <= i < s.len() && is_ws(s[i]) {
        skip_ws(s, i + 1)
    } else {
        i
    }
}

/// End of `s[..e]` with trailing white space removed, not going below `lo`.
pub open spec fn trim_end_at(s: Seq<char>, lo: int, e: int) -> int
    decreases e - lo,
{
    if lo < e && 0 < e <= s.len() && is_ws(s[e - 1]) {
        trim_end_at(s, lo, e - 1)
    } else {
        e
    }
}

pub proof fn lemma_skip_ws_bounds(s: Seq<char>, i: int)
    requires
        0 <= i <= s.len(),
    ensures
        i <= skip_ws(s, i) <= s.len(),
    decreases s.len() - i,
{
    if i < s.len() && is_ws(s[i]) {
        lemma_skip_ws_bounds(s, i + 1);
    }
}

fn skip_ws_exec(s: &Vec<char>, i: usize) -> (r: usize)
    requires
        i <= s@.len(),
    ensures
        r == skip_ws(s@, i as int),
        i <= r <= s@.len(),
{
    let mut k = i;
    while k < s.len() && is_ws_char(s[k])
        invariant
            i <= k <= s@.len(),
            skip_ws(s@, k as int) == skip_ws(s@, i as int),
        decreases s@.len() - k,
    {
        k = k + 1;
    }
    k
}

fn trim_end_exec(s: &Vec<char>, lo: usize, e: usize) -> (r: usize)
    requires
        lo <= e <= s@.len(),
    ensures
        r == trim_end_at(s@, lo as int, e as int),
        lo <= r <= e,
{
    let mut k = e;
    while lo < k && is_ws_char(s[k - 1])
        invariant
            lo <= k <= e,
            e <= s@.len(),
            trim_end_at(s@, lo as int, k as int) == trim_end_at(s@, lo as int, e as int),
        decreases k - lo,
    {
        k = k - 1;
    }
    k
}

/// Separators that end a figure: space, comma and closing brace, and with `paren` also a
/// closing parenthesis.
pub open spec fn is_delim(c: char, paren: bool) -> bool {
    c == ' ' || c == ',' || c == '}' || (paren && c == ')')
}

/// End of the token that starts at `i` and runs to the first separator or to `e`.
pub open spec fn token_end(s: Seq<char>, i: int, e: int, paren: bool) -> int
    decreases e - i,
{
    if 0 <= i < e && e <= s.len() && !is_delim(s[i], paren) {
        token_end(s, i + 1, e, paren)
    } else {
        i
    }
}

fn token_end_exec(s: &Vec<char>, i: usize, e: usize, paren: bool) -> (r: usize)
    requires
        i <= e <= s@.len(),
    ensures
        r == token_end(s@, i as int, e as int, paren),
        i <= r <= e,
{
    let mut k = i;
    while k < e && !(s[k] == ' ' || s[k] == ',' || s[k] == '}' || (paren && s[k] == ')'))
        invariant
            i <= k <= e,
            e <= s@.len(),
            token_end(s@, k as int, e as int, paren) == token_end(s@, i as int, e as int, paren),
        decreases e - k,
    {
        k = k + 1;
    }
    k
}

/// Bounds of the figure that follows the first occurrence of `prefix` in `s`: the rest
/// of the line trimmed of white space at both ends (at the start only, with `trim_both`
/// false), up to the first separator. `None` when the prefix does not occur.
pub open spec fn figure_bounds(s: Seq<char>, prefix: Seq<char>, paren: bool, trim_both: bool) -> Option<(int, int)> {
    match find_from(s, prefix, 0) {
        Some(p) => {
            let b = skip_ws(s, p + prefix.len());
            let e = if trim_both { trim_end_at(s, b, s.len() as int) } else { s.len() as int };
            Some((b, token_end(s, b, e, paren)))
        },
        None => None,
    }
}

/// Optional bounds as mathematical integers.
pub open spec fn as_bounds(r: Option<(usize, usize)>) -> Option<(int, int)> {
    match r {
        Some((b, e)) => Some((b as int, e as int)),
        None => None,
    }
}

/// Bounds of the figure after `prefix` (see `figure_bounds`).
pub fn figure_span(s: &Vec<char>, prefix: &str, paren: bool, trim_both: bool) -> (r: Option<(usize, usize)>)
    ensures
        as_bounds(r) == figure_bounds(s@, prefix@, paren, trim_both),
        r matches Some((b, e)) ==> b <= e <= s@.len(),
{
    let p = chars_of(prefix);
    proof {
        assert(s@.len() <= usize::MAX) by {
            assert(s.len() == s@.len());
        }
    }
    match find(s, &p, 0) {
        Some(pos) => {
            proof {
                lemma_find_from_matches(s@, p@, 0);
                assert(pos + p@.len() <= s@.len());
            }
            let b = skip_ws_exec(s, pos + p.len());
            let e = if trim_both { trim_end_exec(s, b, s.len()) } else { s.len() };
            let t = token_end_exec(s, b, e, paren);
            Some((b, t))
        },
        None => None,
    }
}

pub open spec fn is_digit(c: char) -> bool {
    '0' <= c && c <= '9'
}

pub open spec fn all_digits(s: Seq<char>) -> bool {
    forall|i: int| 0 <= i < s.len() ==> is_digit(#[trigger] s[i])
}

/// The number that a string of decimal digits writes.
pub open spec fn digits_value(s: Seq<char>) -> nat
    decreases s.len(),
{
    if s.len() == 0 {
        0
    } else {
        digits_value(s.drop_last()) * 10 + (s.last() as nat - '0' as nat) as nat
    }
}

/// What `str::parse::<u64>` gives for `s`: an optional `+`, then one or more decimal
/// digits whose value fits in 64 bits.
pub open spec fn u64_of(s: Seq<char>) -> Option<u64> {
    let d = if s.len() > 0 && s[0] == '+' { s.drop_first() } else { s };
    if d.len() > 0 && all_digits(d) && digits_value(d) <= u64::MAX {
        Some(digits_value(d) as u64)
    } else {
        None
    }
}

pub proof fn lemma_digits_value_prefix(s: Seq<char>, k: int)
    requires
        0 <= k <= s.len(),
        all_digits(s),
    ensures
        digits_value(s.subrange(0, k)) <= digits_value(s),
    decreases s.len() - k,
{
    if k < s.len() {
        lemma_digits_value_prefix(s, k + 1);
        let p = s.subrange(0, k + 1);
        assert(p.drop_last() =~= s.subrange(0, k));
        assert(is_digit(p.last()));
    } else {
        assert(s.subrange(0, k) =~= s);
    }
}

/// Value of the decimal digits `s[b..e]`, or `None` when one is not a digit, there are
/// none, or the value does not fit in 64 bits.
fn digits_u64(s: &Vec<char>, b: usize, e: usize) -> (r: Option<u64>)
    requires
        b <= e <= s@.len(),
    ensures
        ({
            let d = s@.subrange(b as int, e as int);
            r == if d.len() > 0 && all_digits(d) && digits_value(d) <= u64::MAX {
                Some(digits_value(d) as u64)
            } else {
                None
            }
        }),
{
    if b == e {
        return None;
    }
    let ghost d = s@.subrange(b as int, e as int);
    let mut v: u64 = 0;
    let mut i = b;
    while i < e
        invariant
            b <= i <= e,
            e <= s@.len(),
            d == s@.subrange(b as int, e as int),
            all_digits(s@.subrange(b as int, i as int)),
            v == digits_value(s@.subrange(b as int, i as int)),
        decreases e - i,
    {
        let c = s[i];
        let ghost p = s@.subrange(b as int, i as int + 1);
        proof {
            assert(p.drop_last() =~= s@.subrange(b as int, i as int));
            assert(d[i - b] == c);
        }
        if !('0' <= c && c <= '9') {
            return None;
        }
        let digit = (c as u32 - '0' as u32) as u64;
        if v > (u64::MAX - digit) / 10 {
            proof {
                assert(all_digits(p));
                assert(digits_value(p) > u64::MAX) by (nonlinear_arith)
                    requires
                        digits_value(p) == v * 10 + digit,
                        v > (u64::MAX - digit) / 10,
                        digit <= 9,
                ;
                if all_digits(d) {
                    assert(d.subrange(0, i - b + 1) =~= p);
                    lemma_digits_value_prefix(d, i - b + 1);
                }
            }
            return None;
        }
        v = v * 10 + digit;
        i = i + 1;
        proof {
            assert(all_digits(s@.subrange(b as int, i as int)));
        }
    }
    Some(v)
}

/// Parses `s[b..e]` as `str::parse::<u64>` does.
pub fn parse_u64_span(s: &Vec<char>, b: usize, e: usize) -> (r: Option<u64>)
    requires
        b <= e <= s@.len(),
    ensures
        r == u64_of(s@.subrange(b as int, e as int)),
{
    let ghost t = s@.subrange(b as int, e as int);
    if b < e && s[b] == '+' {
        proof {
            assert(t.drop_first() =~= s@.subrange(b + 1, e as int));
        }
        digits_u64(s, b + 1, e)
    } else {
        digits_u64(s, b, e)
    }
}

/// A decimal figure in hundredths: digits, then optionally a point and more digits, of
/// which the first two count (`"12.345"` is 1234); `None` for any other form or a value
/// beyond 64 bits.
pub open spec fn centi_of(s: Seq<char>) -> Option<u64> {
    let p = match find_from(s, seq!['.'], 0) {
        Some(k) => k,
        None => s.len() as int,
    };
    let ip = s.subrange(0, p);
    let fp = if p < s.len() { s.subrange(p + 1, s.len() as int) } else { Seq::empty() };
    let f1: int = if fp.len() >= 1 { fp[0] as int - '0' as int } else { 0 };
    let f2: int = if fp.len() >= 2 { fp[1] as int - '0' as int } else { 0 };
    let v = digits_value(ip) * 100 + f1 * 10 + f2;
    if ip.len() > 0 && all_digits(ip) && all_digits(fp) && v <= u64::MAX {
        Some(v as u64)
    } else {
        None
    }
}

/// Reads `s[b..e]` as a decimal figure in hundredths (see `centi_of`).
pub fn parse_centi_span(s: &Vec<char>, b: usize, e: usize) -> (r: Option<u64>)
    requires
        b <= e <= s@.len(),
    ensures
        r == centi_of(s@.subrange(b as int, e as int)),
{
    let ghost t = s@.subrange(b as int, e as int);
    let mut p = b;
    while p < e && s[p] != '.'
        invariant
            b <= p <= e,
            e <= s@.len(),
            forall|k: int| b <= k < p ==> s@[k] != '.',
        decreases e - p,
    {
        p = p + 1;
    }
    proof {
        let pt = find_from(t, seq!['.'], 0);
        assert forall|k: int| 0 <= k < p - b implies !matches_at(t, seq!['.'], k) by {
            assert(t.subrange(k, k + 1)[0] == t[k]);
        }
        if p < e {
            assert(t.subrange(p - b, p - b + 1) =~= seq!['.']);
        }
        lemma_find_prefix_free(t, seq!['.'], 0, p - b);
        if p < e {
            assert(find_from(t, seq!['.'], p - b) == Some(p - b));
        } else {
            assert(find_from(t, seq!['.'], p - b) is None);
        }
        assert(s@.subrange(b as int, p as int) =~= t.subrange(0, p - b));
        if p < e {
            assert(s@.subrange(p + 1, e as int) =~= t.subrange(p - b + 1, t.len() as int));
        }
    }
    let ip = digits_u64(s, b, p);
    let ip_val = match ip {
        Some(v) => v,
        None => {
            proof {
                let ipq = s@.subrange(b as int, p as int);
                if ipq.len() > 0 && all_digits(ipq) {
                    assert(digits_value(ipq) > u64::MAX);
                    assert(digits_value(ipq) * 100 > u64::MAX);
                }
            }
            return None;
        },
    };
    let mut f1: u64 = 0;
    let mut f2: u64 = 0;
    if p < e {
        let mut k = p + 1;
        while k < e
            invariant
                b <= p < e,
                p + 1 <= k <= e,
                e <= s@.len(),
                t == s@.subrange(b as int, e as int),
                find_from(t, seq!['.'], 0) == Some(p - b),
                s@.subrange(p + 1, e as int) =~= t.subrange(p - b + 1, t.len() as int),
                forall|j: int| p + 1 <= j < k ==> is_digit(s@[j]),
            decreases e - k,
        {
            if !('0' <= s[k] && s[k] <= '9') {
                proof {
                    let fp = s@.subrange(p + 1, e as int);
                    assert(!is_digit(fp[k - p - 1]));
                }
                return None;
            }
            k = k + 1;
        }
        if e - p > 1 {
            f1 = (s[p + 1] as u32 - '0' as u32) as u64;
        }
        if e - p > 2 {
            f2 = (s[p + 2] as u32 - '0' as u32) as u64;
        }
    }
    proof {
        let fp = if p < e { s@.subrange(p + 1, e as int) } else { Seq::<char>::empty() };
        assert(all_digits(fp));
    }
    if ip_val > (u64::MAX - 99) / 100 {
        let big = ip_val as u128 * 100 + (f1 * 10 + f2) as u128;
        if big > u64::MAX as u128 {
            return None;
        }
        return Some(big as u64);
    }
    Some(ip_val * 100 + f1 * 10 + f2)
}

/// No occurrence before `k` and none from `k` to `m` other than at `m`: the search from
/// any such start gives the same answer.
pub proof fn lemma_find_prefix_free(t: Seq<char>, n: Seq<char>, k: int, m: int)
    requires
        0 <= k <= m,
        m <= t.len(),
        forall|j: int| 0 <= j < m ==> !matches_at(t, n, j),
    ensures
        find_from(t, n, k) == find_from(t, n, m),
    decreases m - k,
{
    if k < m {
        lemma_find_prefix_free(t, n, k + 1, m);
    }
}

} // verus!
