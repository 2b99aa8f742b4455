//! Observer geolocation: decimal coordinate parsing and the ordered
//! provider fallback.
//!
//! One provider answers with a single `"lat,lon"` text field; its halves are
//! trimmed and read as plain signed decimal-degree numbers into micro-degrees
//! (fraction digits past the sixth are ignored). Providers are tried strictly
//! in order and the first successful answer wins; when every provider fails,
//! the resolution fails as a whole.
use vstd::prelude::*;
use crate::geo::GeoPoint;
use crate::tle::{trim_spec, trim_str};
use crate::TrackError;

verus! {

/// The single text field of the provider that answers `"lat,lon"`.
#[derive(Clone, Debug)]
pub struct IpInfoResponse {
    pub loc: String,
}

impl IpInfoResponse {
    /// The fix this response denotes, when its field reads as coordinates.
    pub fn coordinates(&self) -> (r: Option<GeoPoint>)
        ensures
            match loc_microdeg_of(self.loc@) {
                Option::None => r is None,
                Option::Some(pair) => r matches Some(p) && p.lat_microdeg == pair.0
                    && p.lon_microdeg == pair.1,
            },
    {
        parse_loc(self.loc.as_str())
    }
}

/// The position of the first occurrence of `c`, or the length when absent.
pub open spec fn first_index_of(s: Seq<char>, c: char) -> nat
    decreases s.len(),
{
    if s.len() == 0 {
        0
    } else if s[0] == c {
        0
    } else {
        1 + first_index_of(s.drop_first(), c)
    }
}

proof fn lemma_first_index_at(s: Seq<char>, c: char, j: int)
    requires
        0 <= j <= s.len(),
        forall|k: int| 0 <= k < j ==> s[k] != c,
        j < s.len() ==> s[j] == c,
    ensures
        first_index_of(s, c) == j,
    decreases j,
{
    if j == 0 {
    } else {
        assert(s[0] != c);
        lemma_first_index_at(s.drop_first(), c, j - 1);
    }
}

pub open spec fn is_digit(c: char) -> bool {
    '0' <= c <= '9'
}

pub open spec fn all_digits(s: Seq<char>) -> bool {
    forall|i: int| 0 <= i < s.len() ==> is_digit(#[trigger] s[i])
}

/// The number a digit string denotes.
pub open spec fn digits_value(s: Seq<char>) -> int
    decreases s.len(),
{
    if s.len() == 0 {
        0
    } else {
        digits_value(s.drop_last()) * 10 + (s.last() as int - '0' as int)
    }
}

pub open spec fn pow10(n: nat) -> int
    decreases n,
{
    if n == 0 {
        1
    } else {
        10 * pow10((n - 1) as nat)
    }
}

/// Micro-degrees contributed by one fractional digit at the given count of
/// fraction digits kept (at most six).
pub open spec fn frac_scale(len: int) -> int {
    if len <= 0 {
        1_000_000
    } else if len == 1 {
        100_000
    } else if len == 2 {
        10_000
    } else if len == 3 {
        1_000
    } else if len == 4 {
        100
    } else if len == 5 {
        10
    } else {
        1
    }
}

pub open spec fn signed_value(neg: bool, v: int) -> int {
    if neg {
        -v
    } else {
        v
    }
}

/// The micro-degrees a decimal-degree text denotes: an optional sign, one to
/// nine integer digits, and optionally a point followed by at least one
/// fraction digit, of which the first six count. Anything else is rejected.
pub open spec fn coord_microdeg_of(s: Seq<char>) -> Option<int> {
    let neg = s.len() > 0 && s[0] == '-';
    let body = if s.len() > 0 && (s[0] == '-' || s[0] == '+') {
        s.drop_first()
    } else {
        s
    };
    let d = first_index_of(body, '.') as int;
    if d >= body.len() {
        if 1 <= body.len() <= 9 && all_digits(body) {
            Option::Some(signed_value(neg, digits_value(body) * 1_000_000))
        } else {
            Option::None
        }
    } else {
        let ip = body.subrange(0, d);
        let fp = body.subrange(d + 1, body.len() as int);
        if 1 <= ip.len() <= 9 && fp.len() >= 1 && all_digits(ip) && all_digits(fp) {
            let f6 = if fp.len() > 6 {
                fp.subrange(0, 6)
            } else {
                fp
            };
            Option::Some(
                signed_value(
                    neg,
                    digits_value(ip) * 1_000_000 + digits_value(f6) * frac_scale(f6.len() as int),
                ),
            )
        } else {
            Option::None
        }
    }
}

fn char_is_digit(c: char) -> (r: bool)
    ensures
        r == is_digit(c),
{
    '0' <= c && c <= '9'
}

fn digit_value(c: char) -> (d: u64)
    requires
        is_digit(c),
    ensures
        d as int == c as int - '0' as int,
        d <= 9,
{
    (c as u32 - 48) as u64
}

proof fn lemma_pow10_small()
    ensures
        pow10(8) == 100_000_000,
        pow10(9) == 1_000_000_000,
        pow10(5) == 100_000,
        pow10(6) == 1_000_000,
{
    assert(pow10(0) == 1);
    assert(pow10(1) == 10);
    assert(pow10(2) == 100);
    assert(pow10(3) == 1_000);
    assert(pow10(4) == 10_000);
    assert(pow10(5) == 100_000);
    assert(pow10(6) == 1_000_000);
    assert(pow10(7) == 10_000_000);
    assert(pow10(8) == 100_000_000);
    assert(pow10(9) == 1_000_000_000);
}

/// Reads the digits `s[from..to]` as a number, left to right.
fn digits_to_u64(s: &str, from: usize, to: usize) -> (v: u64)
    requires
        from <= to <= s@.len(),
        to - from <= 9,
        all_digits(s@.subrange(from as int, to as int)),
    ensures
        v as int == digits_value(s@.subrange(from as int, to as int)),
        v < 1_000_000_000,
{
    proof {
        lemma_pow10_small();
    }
    let mut k: usize = from;
    let mut acc: u64 = 0;
    while k < to
        invariant
            from <= k <= to <= s@.len(),
            to - from <= 9,
            all_digits(s@.subrange(from as int, to as int)),
            acc as int == digits_value(s@.subrange(from as int, k as int)),
            (acc as int) < pow10((k - from) as nat),
            pow10(8) == 100_000_000,
            pow10(9) == 1_000_000_000,
        decreases to - k,
    {
        proof {
            assert(s@.subrange(from as int, k as int + 1).drop_last() =~= s@.subrange(
                from as int,
                k as int,
            ));
            assert(s@.subrange(from as int, k as int + 1).last() == s@.subrange(
                from as int,
                to as int,
            )[k - from]);
            assert(pow10(((k + 1) - from) as nat) == 10 * pow10((k - from) as nat));
            if k - from + 1 < 9 {
                lemma_pow10_mono((k + 1 - from) as nat, 8);
            }
        }
        let c = s.get_char(k);
        assert(is_digit(c));
        let d = digit_value(c);
        acc = acc * 10 + d;
        k = k + 1;
    }
    proof {
        if to - from < 9 {
            lemma_pow10_mono((to - from) as nat, 9);
        }
    }
    acc
}

/// Reads a decimal-degree text into micro-degrees, exactly as
/// [`coord_microdeg_of`] denotes it.
#[verifier::loop_isolation(false)]
pub fn parse_coord_microdeg(s: &str) -> (r: Option<i64>)
    ensures
        (r is Some) == (coord_microdeg_of(s@) is Some),
        r matches Some(v) ==> coord_microdeg_of(s@) == Some(v as int),
{
    let n: usize = s.unicode_len();
    let mut neg = false;
    let mut start: usize = 0;
    if n > 0 {
        let c0 = s.get_char(0);
        if c0 == '-' {
            neg = true;
            start = 1;
        } else if c0 == '+' {
            start = 1;
        }
    }
    let ghost body = if start == 1 {
        s@.drop_first()
    } else {
        s@
    };
    proof {
        assert(body =~= s@.subrange(start as int, n as int));
    }
    let mut j: usize = start;
    while j < n && s.get_char(j) != '.'
        invariant
            start <= j <= n,
            n == s@.len(),
            forall|k: int| start <= k < j ==> s@[k] != '.',
        decreases n - j,
    {
        j = j + 1;
    }
    proof {
        assert forall|k: int| 0 <= k < j - start implies body[k] != '.' by {
            assert(body[k] == s@[start + k]);
        }
        lemma_first_index_at(body, '.', j as int - start as int);
    }
    if j >= n {
        // no decimal point: the whole body is the integer part
        if n - start < 1 || n - start > 9 {
            return None;
        }
        let mut k: usize = start;
        while k < n
            invariant
                start <= k <= n,
                n == s@.len(),
                forall|t: int| start <= t < k ==> is_digit(#[trigger] s@[t]),
            decreases n - k,
        {
            if !char_is_digit(s.get_char(k)) {
                proof {
                    assert(body[k - start as int] == s@[k as int]);
                    assert(!all_digits(body));
                }
                return None;
            }
            k = k + 1;
        }
        proof {
            assert forall|i: int| 0 <= i < body.len() implies is_digit(#[trigger] body[i]) by {
                assert(body[i] == s@[start + i]);
            }
            assert(s@.subrange(start as int, n as int) =~= body);
        }
        let v = digits_to_u64(s, start, n);
        let magnitude: i64 = (v as i64) * 1_000_000;
        if neg {
            return Some(-magnitude);
        }
        return Some(magnitude);
    }
    // a decimal point at j: integer part before, fraction after
    let ghost d = j as int - start as int;
    let ghost ip = body.subrange(0, d);
    let ghost fp = body.subrange(d + 1, body.len() as int);
    proof {
        assert(ip =~= s@.subrange(start as int, j as int));
        assert(fp =~= s@.subrange(j as int + 1, n as int));
    }
    if j - start < 1 || j - start > 9 || n - j - 1 < 1 {
        return None;
    }
    let mut k: usize = start;
    while k < j
        invariant
            start <= k <= j <= n,
            n == s@.len(),
            forall|t: int| start <= t < k ==> is_digit(#[trigger] s@[t]),
        decreases j - k,
    {
        if !char_is_digit(s.get_char(k)) {
            proof {
                assert(ip[k - start as int] == s@[k as int]);
                assert(!all_digits(ip));
            }
            return None;
        }
        k = k + 1;
    }
    proof {
        assert forall|i: int| 0 <= i < ip.len() implies is_digit(#[trigger] ip[i]) by {
            assert(ip[i] == s@[start + i]);
        }
    }
    let mut k2: usize = j + 1;
    while k2 < n
        invariant
            j + 1 <= k2 <= n,
            n == s@.len(),
            forall|t: int| j + 1 <= t < k2 ==> is_digit(#[trigger] s@[t]),
        decreases n - k2,
    {
        if !char_is_digit(s.get_char(k2)) {
            proof {
                assert(fp[k2 - (j + 1) as int] == s@[k2 as int]);
                assert(!all_digits(fp));
            }
            return None;
        }
        k2 = k2 + 1;
    }
    proof {
        assert forall|i: int| 0 <= i < fp.len() implies is_digit(#[trigger] fp[i]) by {
            assert(fp[i] == s@[j + 1 + i]);
        }
    }
    let flen: usize = n - j - 1;
    let kept: usize = if flen > 6 {
        6
    } else {
        flen
    };
    let fend: usize = j + 1 + kept;
    let ghost f6 = if fp.len() > 6 {
        fp.subrange(0, 6)
    } else {
        fp
    };
    proof {
        assert(f6 =~= s@.subrange(j as int + 1, fend as int));
        assert(ip =~= s@.subrange(start as int, j as int));
    }
    let iv = digits_to_u64(s, start, j);
    let fv = digits_to_u64(s, j + 1, fend);
    let scale: u64 = if kept == 1 {
        100_000
    } else if kept == 2 {
        10_000
    } else if kept == 3 {
        1_000
    } else if kept == 4 {
        100
    } else if kept == 5 {
        10
    } else {
        1
    };
    assert(scale as int == frac_scale(f6.len() as int));
    proof {
        crate::trig::lemma_mul_bound(fv as int, scale as int, 1_000_000_000, 100_000);
    }
    let magnitude: i64 = (iv as i64) * 1_000_000 + (fv as i64) * (scale as i64);
    if neg {
        Some(-magnitude)
    } else {
        Some(magnitude)
    }
}

/// The coordinates a provider's `"lat,lon"` field denotes: the halves around
/// the first comma, each trimmed and read as decimal degrees; absent comma or
/// an unreadable half rejects the field.
pub open spec fn loc_microdeg_of(s: Seq<char>) -> Option<(int, int)> {
    let c = first_index_of(s, ',') as int;
    if c >= s.len() {
        Option::None
    } else {
        match (
            coord_microdeg_of(trim_spec(s.subrange(0, c))),
            coord_microdeg_of(trim_spec(s.subrange(c + 1, s.len() as int))),
        ) {
            (Option::Some(la), Option::Some(lo)) => Option::Some((la, lo)),
            _ => Option::None,
        }
    }
}

/// Splits a `"lat,lon"` field at its first comma and reads both halves,
/// exactly as [`loc_microdeg_of`] denotes it.
pub fn parse_loc(loc: &str) -> (r: Option<GeoPoint>)
    ensures
        match loc_microdeg_of(loc@) {
            Option::None => r is None,
            Option::Some(pair) => r matches Some(p) && p.lat_microdeg == pair.0
                && p.lon_microdeg == pair.1,
        },
{
    let n: usize = loc.unicode_len();
    let mut c: usize = 0;
    while c < n && loc.get_char(c) != ','
        invariant
            c <= n,
            n == loc@.len(),
            forall|k: int| 0 <= k < c ==> loc@[k] != ',',
        decreases n - c,
    {
        c = c + 1;
    }
    proof {
        lemma_first_index_at(loc@, ',', c as int);
    }
    if c >= n {
        return None;
    }
    let left = loc.substring_char(0, c);
    let right = loc.substring_char(c + 1, n);
    let left_trimmed = trim_str(left);
    let right_trimmed = trim_str(right);
    let la = parse_coord_microdeg(left_trimmed.as_str());
    let lo = parse_coord_microdeg(right_trimmed.as_str());
    match (la, lo) {
        (Some(a), Some(b)) => Some(GeoPoint { lat_microdeg: a, lon_microdeg: b }),
        _ => None,
    }
}

/// The index of the first provider attempt that produced a fix.
pub open spec fn first_fix(s: Seq<Option<GeoPoint>>, i: int) -> Option<int>
    decreases s.len() - i,
{
    if i < 0 || i >= s.len() {
        Option::None
    } else if s[i] is Some {
        Option::Some(i)
    } else {
        first_fix(s, i + 1)
    }
}

/// Resolves the observer's location out of the ordered provider attempts:
/// the first successful attempt wins, and when every attempt failed the
/// resolution fails as a whole.
pub fn resolve_location(attempts: &Vec<Option<GeoPoint>>) -> (r: Result<GeoPoint, TrackError>)
    ensures
        match first_fix(attempts@, 0) {
            Option::None => r matches Err(e) && e == TrackError::AllProvidersFailure,
            Option::Some(j) => r matches Ok(p) && attempts@[j] == Some(p),
        },
{
    let mut idx: usize = 0;
    while idx < attempts.len()
        invariant
            idx <= attempts.len(),
            first_fix(attempts@, 0) == first_fix(attempts@, idx as int),
        decreases attempts.len() - idx,
    {
        match attempts[idx] {
            Some(p) => {
                assert(first_fix(attempts@, idx as int) == Some(idx as int));
                return Ok(p);
            },
            None => {
            },
        }
        idx = idx + 1;
        assert(first_fix(attempts@, idx - 1) == first_fix(attempts@, idx as int));
    }
    Err(TrackError::AllProvidersFailure)
}

proof fn lemma_pow10_mono(a: nat, b: nat)
    requires
        a <= b,
    ensures
        pow10(a) <= pow10(b),
    decreases b,
{
    if a < b {
        lemma_pow10_mono(a, (b - 1) as nat);
        assert(pow10(b) == 10 * pow10((b - 1) as nat));
        assert(pow10(a) >= 1) by {
            lemma_pow10_pos(a);
        };
    }
}

proof fn lemma_pow10_pos(a: nat)
    ensures
        pow10(a) >= 1,
    decreases a,
{
    if a > 0 {
        lemma_pow10_pos((a - 1) as nat);
    }
}

} // verus!
