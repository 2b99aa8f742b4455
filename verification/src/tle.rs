//! Parsing of orbital element sets (TLE) out of the two accepted wire shapes.
//!
//! A structured JSON shape carries the two element lines plus an optional name
//! under either of two field names; a raw text shape holds a `"1 "`-prefixed
//! line immediately followed by a `"2 "`-prefixed line, optionally preceded by
//! a non-`"0 "`-prefixed name line. The structured shape is tried first. The
//! text cleaning (line splitting, trimming, dropping blank lines) and the line
//! scan are verified character by character against spec-level mirrors.
use vstd::prelude::*;
use crate::TrackError;

verus! {

/// An orbital element set: two element lines and an optional satellite name.
#[derive(Clone, Debug)]
pub struct TleData {
    pub name: Option<String>,
    pub line1: String,
    pub line2: String,
}

impl TleData {
    /// The element lines carry their standard markers.
    pub open spec fn wf(self) -> bool {
        line_marked(self.line1@, '1') && line_marked(self.line2@, '2')
    }
}

/// ASCII whitespace, the class stripped from the ends of each line.
pub open spec fn is_space(c: char) -> bool {
    c == ' ' || c == '\t' || c == '\n' || c == '\r' || c == '\u{b}' || c == '\u{c}'
}

fn char_is_space(c: char) -> (r: bool)
    ensures
        r == is_space(c),
{
    c == ' ' || c == '\t' || c == '\n' || c == '\r' || c == '\u{b}' || c == '\u{c}'
}

/// The line with its leading whitespace dropped.
pub open spec fn trim_start_spec(s: Seq<char>) -> Seq<char>
    decreases s.len(),
{
    if s.len() > 0 && is_space(s[0]) {
        trim_start_spec(s.drop_first())
    } else {
        s
    }
}

/// The line with its trailing whitespace dropped.
pub open spec fn trim_end_spec(s: Seq<char>) -> Seq<char>
    decreases s.len(),
{
    if s.len() > 0 && is_space(s.last()) {
        trim_end_spec(s.drop_last())
    } else {
        s
    }
}

/// The line with whitespace dropped from both ends.
pub open spec fn trim_spec(s: Seq<char>) -> Seq<char> {
    trim_end_spec(trim_start_spec(s))
}

/// Trims ASCII whitespace from both ends of a string.
pub fn trim_str(s: &str) -> (r: String)
    ensures
        r@ == trim_spec(s@),
{
    let n: usize = s.unicode_len();
    proof {
        assert(s@.subrange(0, n as int) =~= s@);
    }
    let mut a: usize = 0;
    while a < n && char_is_space(s.get_char(a))
        invariant
            a <= n,
            n == s@.len(),
            trim_start_spec(s@) == trim_start_spec(s@.subrange(a as int, n as int)),
        decreases n - a,
    {
        proof {
            assert(s@.subrange(a as int, n as int).drop_first() =~= s@.subrange(
                a as int + 1,
                n as int,
            ));
        }
        a = a + 1;
    }
    proof {
        if a < n {
            assert(trim_start_spec(s@.subrange(a as int, n as int)) == s@.subrange(
                a as int,
                n as int,
            ));
        } else {
            assert(s@.subrange(a as int, n as int).len() == 0);
        }
    }
    let mut b: usize = n;
    while b > a && char_is_space(s.get_char(b - 1))
        invariant
            a <= b <= n,
            n == s@.len(),
            trim_start_spec(s@) == s@.subrange(a as int, n as int),
            trim_end_spec(s@.subrange(a as int, n as int)) == trim_end_spec(
                s@.subrange(a as int, b as int),
            ),
        decreases b,
    {
        proof {
            assert(s@.subrange(a as int, b as int).drop_last() =~= s@.subrange(
                a as int,
                b as int - 1,
            ));
            assert(s@.subrange(a as int, b as int).last() == s@[b as int - 1]);
        }
        b = b - 1;
    }
    proof {
        if b > a {
            assert(trim_end_spec(s@.subrange(a as int, b as int)) == s@.subrange(
                a as int,
                b as int,
            ));
        } else {
            assert(s@.subrange(a as int, b as int).len() == 0);
        }
    }
    let piece = s.substring_char(a, b);
    piece.to_owned()
}

/// The position of the first line break, or the length when there is none.
pub open spec fn line_break_index(s: Seq<char>) -> nat
    decreases s.len(),
{
    if s.len() == 0 {
        0
    } else if s[0] == '\n' {
        0
    } else {
        1 + line_break_index(s.drop_first())
    }
}

proof fn lemma_line_break_at(s: Seq<char>, j: int)
    requires
        0 <= j <= s.len(),
        forall|k: int| 0 <= k < j ==> s[k] != '\n',
        j < s.len() ==> s[j] == '\n',
    ensures
        line_break_index(s) == j,
    decreases j,
{
    if j == 0 {
    } else {
        assert(s[0] != '\n');
        lemma_line_break_at(s.drop_first(), j - 1);
    }
}

/// A trimmed line enters the sequence only when something remains of it.
pub open spec fn maybe_line(t: Seq<char>) -> Seq<Seq<char>> {
    if t.len() == 0 {
        Seq::empty()
    } else {
        seq![t]
    }
}

/// The input split at line breaks, each line trimmed, blank lines dropped.
pub open spec fn clean_lines(s: Seq<char>) -> Seq<Seq<char>>
    decreases s.len(),
{
    let j = line_break_index(s);
    if j >= s.len() {
        maybe_line(trim_spec(s))
    } else {
        maybe_line(trim_spec(s.subrange(0, j as int))) + clean_lines(
            s.subrange(j as int + 1, s.len() as int),
        )
    }
}

/// Computes [`clean_lines`]: the trimmed non-blank lines of the input.
pub fn clean_lines_str(s: &str) -> (r: Vec<String>)
    ensures
        r@.len() == clean_lines(s@).len(),
        forall|i: int| 0 <= i < r@.len() ==> r@[i]@ == clean_lines(s@)[i],
    decreases s@.len(),
{
    let n: usize = s.unicode_len();
    let mut j: usize = 0;
    while j < n && s.get_char(j) != '\n'
        invariant
            j <= n,
            n == s@.len(),
            forall|k: int| 0 <= k < j ==> s@[k] != '\n',
        decreases n - j,
    {
        j = j + 1;
    }
    proof {
        lemma_line_break_at(s@, j as int);
    }
    if j >= n {
        let t = trim_str(s);
        let mut r: Vec<String> = Vec::new();
        if t.as_str().unicode_len() > 0 {
            r.push(t);
        }
        r
    } else {
        let head = s.substring_char(0, j);
        let t = trim_str(head);
        let rest = s.substring_char(j + 1, n);
        let mut tail = clean_lines_str(rest);
        let mut r: Vec<String> = Vec::new();
        if t.as_str().unicode_len() > 0 {
            r.push(t);
        }
        r.append(&mut tail);
        r
    }
}

/// The line begins with the given marker digit followed by a space.
pub open spec fn line_marked(l: Seq<char>, c: char) -> bool {
    l.len() >= 2 && l[0] == c && l[1] == ' '
}

fn str_line_marked(l: &String, c: char) -> (r: bool)
    ensures
        r == line_marked(l@, c),
{
    let s = l.as_str();
    s.unicode_len() >= 2 && s.get_char(0) == c && s.get_char(1) == ' '
}

/// The first index at or past `i` where a `"1 "`-marked line is immediately
/// followed by a `"2 "`-marked line.
pub open spec fn find_pair(ls: Seq<Seq<char>>, i: int) -> Option<int>
    decreases ls.len() - i,
{
    if i < 0 || i >= ls.len() {
        None
    } else if line_marked(ls[i], '1') && i + 1 < ls.len() && line_marked(ls[i + 1], '2') {
        Some(i)
    } else {
        find_pair(ls, i + 1)
    }
}

/// What the raw-text shape of the input denotes: `None` when no marked pair of
/// lines exists, otherwise the two element lines and the optional name line.
pub open spec fn text_tle_matches(text: Seq<char>, r: Option<TleData>) -> bool {
    let ls = clean_lines(text);
    match find_pair(ls, 0) {
        Option::None => r is None,
        Option::Some(i) => r matches Some(t) && t.line1@ == ls[i] && t.line2@ == ls[i + 1] && (
        if i > 0 && !line_marked(ls[i - 1], '0') {
            t.name matches Some(nm) && nm@ == ls[i - 1]
        } else {
            t.name is None
        }),
    }
}

/// Parses the raw text shape: among the trimmed non-blank lines, the first
/// `"1 "`-marked line immediately followed by a `"2 "`-marked line, with the
/// preceding line as the name unless it is absent or `"0 "`-marked.
pub fn parse_tle_text(text: &str) -> (r: Option<TleData>)
    ensures
        text_tle_matches(text@, r),
        r matches Some(t) ==> t.wf(),
{
    let lines = clean_lines_str(text);
    let mut idx: usize = 0;
    while idx < lines.len()
        invariant
            idx <= lines.len(),
            lines@.len() == clean_lines(text@).len(),
            forall|k: int| 0 <= k < lines@.len() ==> lines@[k]@ == clean_lines(text@)[k],
            find_pair(clean_lines(text@), 0) == find_pair(clean_lines(text@), idx as int),
        decreases lines.len() - idx,
    {
        if str_line_marked(&lines[idx], '1') && idx + 1 < lines.len() && str_line_marked(
            &lines[idx + 1],
            '2',
        ) {
            let name: Option<String> = if idx > 0 && !str_line_marked(&lines[idx - 1], '0') {
                Some(lines[idx - 1].clone())
            } else {
                None
            };
            proof {
                let ls = clean_lines(text@);
                assert(find_pair(ls, idx as int) == Some(idx as int));
                if idx > 0 {
                    assert(lines@[idx as int - 1]@ == ls[idx as int - 1]);
                }
            }
            let line1 = lines[idx].clone();
            let line2 = lines[idx + 1].clone();
            let result = TleData { name, line1, line2 };
            assert(text_tle_matches(text@, Some(result)));
            return Some(result);
        }
        idx = idx + 1;
        assert(find_pair(clean_lines(text@), idx - 1) == find_pair(clean_lines(text@), idx as int));
    }
    None
}

/// The fields of the structured JSON shape of a TLE response, as a function
/// of the text alone: the name under its first accepted field name, the name
/// under its alternate field name, and the two element lines; `None` when the
/// text is not a JSON object carrying both element lines as strings.
pub uninterp spec fn structured_tle_fields(s: Seq<char>) -> Option<
    (Option<Seq<char>>, Option<Seq<char>>, Seq<char>, Seq<char>),
>;

/// The views of raw structured fields, in the shape of
/// [`structured_tle_fields`].
pub open spec fn raw_fields_view(r: Option<(Option<String>, Option<String>, String, String)>)
    -> Option<(Option<Seq<char>>, Option<Seq<char>>, Seq<char>, Seq<char>)> {
    match r {
        Option::None => Option::None,
        Option::Some(f) => Option::Some(
            (
                match f.0 {
                    Option::None => Option::None,
                    Option::Some(h) => Option::Some(h@),
                },
                match f.1 {
                    Option::None => Option::None,
                    Option::Some(n) => Option::Some(n@),
                },
                f.2@,
                f.3@,
            ),
        ),
    }
}

/// Relies on serde_json's `from_str` together with the `Value` accessors
/// `get` and `as_str`: whether the text parses as a JSON object with string
/// fields `line1` and `line2`, and what those fields plus the optional string
/// fields `header` and `name` hold, depends on the text alone.
#[verifier::external_body]
fn structured_tle_raw(text: &str) -> (r: Option<(Option<String>, Option<String>, String, String)>)
    ensures
        raw_fields_view(r) == structured_tle_fields(text@),
{
    let v: serde_json::Value = match serde_json::from_str(text) {
        Ok(v) => v,
        Err(_) => return None,
    };
    let header = v.get("header").and_then(|x| x.as_str()).map(|s| s.to_string());
    let name = v.get("name").and_then(|x| x.as_str()).map(|s| s.to_string());
    let line1 = match v.get("line1").and_then(|x| x.as_str()) {
        Some(s) => s.to_string(),
        None => return None,
    };
    let line2 = match v.get("line2").and_then(|x| x.as_str()) {
        Some(s) => s.to_string(),
        None => return None,
    };
    Some((header, name, line1, line2))
}

/// Builds the element set out of the structured fields; the name under the
/// first accepted field name wins over the alternate one.
pub fn assemble_structured_tle(
    header: Option<String>,
    alt_name: Option<String>,
    line1: String,
    line2: String,
) -> (t: TleData)
    ensures
        t.line1 == line1,
        t.line2 == line2,
        t.name == if header is Some {
            header
        } else {
            alt_name
        },
{
    let name = match header {
        Some(h) => Some(h),
        None => alt_name,
    };
    TleData { name, line1, line2 }
}

/// What the structured shape of the input denotes: `None` when the text does
/// not carry the shape, otherwise the element set with the name under the
/// first accepted field name winning over the alternate one.
pub open spec fn structured_tle_matches(text: Seq<char>, r: Option<TleData>) -> bool {
    match structured_tle_fields(text) {
        Option::None => r is None,
        Option::Some(g) => r matches Some(t) && t.line1@ == g.2 && t.line2@ == g.3 && (match g.0 {
            Option::Some(h) => t.name matches Some(nm) && nm@ == h,
            Option::None => match g.1 {
                Option::Some(n2) => t.name matches Some(nm) && nm@ == n2,
                Option::None => t.name is None,
            },
        }),
    }
}

/// Parses the structured JSON shape of a TLE response.
pub fn parse_tle_json(text: &str) -> (r: Option<TleData>)
    ensures
        structured_tle_matches(text@, r),
{
    match structured_tle_raw(text) {
        None => None,
        Some((header, alt_name, line1, line2)) => Some(
            assemble_structured_tle(header, alt_name, line1, line2),
        ),
    }
}

/// Parses a TLE response: the structured JSON shape is tried first, then the
/// raw text shape; when neither matches, the response is a format failure.
pub fn parse_tle(text: &str) -> (r: Result<TleData, TrackError>)
    ensures
        structured_tle_fields(text@) is Some ==> (r matches Ok(t) && structured_tle_matches(
            text@,
            Some(t),
        )),
        structured_tle_fields(text@) is None && find_pair(clean_lines(text@), 0) is Some ==> (
        r matches Ok(t) && text_tle_matches(text@, Some(t)) && t.wf()),
        structured_tle_fields(text@) is None && find_pair(clean_lines(text@), 0) is None ==> (
        r matches Err(e) && e == TrackError::FormatFailure),
{
    match parse_tle_json(text) {
        Some(t) => Ok(t),
        None => match parse_tle_text(text) {
            Some(t) => Ok(t),
            None => Err(TrackError::FormatFailure),
        },
    }
}

} // verus!
