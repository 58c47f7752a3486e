use vstd::prelude::*;
use vstd::string::*;

verus! {

/// A tool change or wear event from a machine's record stream.
#[derive(Clone, Debug, PartialEq)]
pub struct ToolEvent {
    pub ts: i64,
    pub tool_id: Option<String>,
    pub event_type: String,
}

/// Unicode white space, as `char::is_whitespace` classifies it.
pub open spec fn is_ws(c: char) -> bool {
    ('\u{9}' <= c && c <= '\u{d}') || c == ' ' || c == '\u{85}' || c == '\u{a0}' || c
        == '\u{1680}' || ('\u{2000}' <= c && c <= '\u{200a}') || c == '\u{2028}' || c
        == '\u{2029}' || c == '\u{202f}' || c == '\u{205f}' || c == '\u{3000}'
}

/// `pat` occurs in `text` at position `i`.
pub open spec fn occurs_at(text: Seq<char>, pat: Seq<char>, i: int) -> bool {
    0 <= i && i + pat.len() <= text.len() && text.subrange(i, i + pat.len()) == pat
}

/// First position at or after `i` where `pat` occurs in `text`.
pub open spec fn find_from(text: Seq<char>, pat: Seq<char>, i: int) -> Option<int>
    decreases text.len() + 1 - i,
{
    if i < 0 || i + pat.len() > text.len() {
        None
    } else if occurs_at(text, pat, i) {
        Some(i)
    } else {
        find_from(text, pat, i + 1)
    }
}

/// First position at or after `i` that holds no white space (the length if none does).
pub open spec fn skip_ws(text: Seq<char>, i: int) -> int
    decreases text.len() - i,
{
    if 0 <= i < text.len() && is_ws(text[i]) {
        skip_ws(text, i + 1)
    } else {
        i
    }
}

/// First position at or after `i` that holds `c`.
pub open spec fn find_char(text: Seq<char>, c: char, i: int) -> Option<int>
    decreases text.len() - i,
{
    if i < 0 || i >= text.len() {
        None
    } else if text[i] == c {
        Some(i)
    } else {
        find_char(text, c, i + 1)
    }
}

/// First position at or after `i` that holds `,` or `}` (the length if none does).
pub open spec fn value_end(text: Seq<char>, i: int) -> int
    decreases text.len() - i,
{
    if i < 0 || i >= text.len() {
        text.len() as int
    } else if text[i] == ',' || text[i] == '}' {
        i
    } else {
        value_end(text, i + 1)
    }
}

/// End of `text[lo..hi]` with trailing white space removed.
pub open spec fn trim_end(text: Seq<char>, lo: int, hi: int) -> int
    decreases hi - lo,
{
    if lo < hi && is_ws(text[hi - 1]) {
        trim_end(text, lo, hi - 1)
    } else {
        hi
    }
}

/// The text `"key":` that introduces a field.
pub open spec fn field_marker(key: Seq<char>) -> Seq<char> {
    seq!['"'] + key + seq!['"', ':']
}

/// Where the value of field `key` starts in `line`: after the first marker and any white
/// space.
pub open spec fn value_start(line: Seq<char>, key: Seq<char>) -> Option<int> {
    match find_from(line, field_marker(key), 0) {
        Some(i) => Some(skip_ws(line, i + field_marker(key).len())),
        None => None,
    }
}

/// The string value of field `key`: the text between the quote that opens the value and the
/// next quote.
pub open spec fn string_field(line: Seq<char>, key: Seq<char>) -> Option<Seq<char>> {
    match value_start(line, key) {
        Some(s) => if s < line.len() && line[s] == '"' {
            match find_char(line, '"', s + 1) {
                Some(e) => Some(line.subrange(s + 1, e)),
                None => None,
            }
        } else {
            None
        },
        None => None,
    }
}

/// The raw text of the value of field `key`: up to the next `,` or `}`, without surrounding
/// white space.
pub open spec fn value_field(line: Seq<char>, key: Seq<char>) -> Option<Seq<char>> {
    match value_start(line, key) {
        Some(s) => Some(line.subrange(s, trim_end(line, s, value_end(line, s)))),
        None => None,
    }
}

/// Decimal value of a sequence of digits.
pub open spec fn digits_value(s: Seq<char>) -> nat
    decreases s.len(),
{
    if s.len() == 0 {
        0
    } else {
        digits_value(s.drop_last()) * 10 + ((s.last() as u32 - '0' as u32) as nat)
    }
}

/// Every character is a decimal digit.
pub open spec fn all_digits(s: Seq<char>) -> bool {
    forall|i: int| 0 <= i < s.len() ==> '0' <= #[trigger] s[i] && s[i] <= '9'
}

/// A base-ten `i64`, as `str::parse::<i64>` reads it: an optional sign, then one or more
/// digits, in range.
pub open spec fn parse_i64(s: Seq<char>) -> Option<i64> {
    let neg = s.len() > 0 && s[0] == '-';
    let body = if s.len() > 0 && (s[0] == '-' || s[0] == '+') {
        s.drop_first()
    } else {
        s
    };
    let v: int = if neg {
        -(digits_value(body) as int)
    } else {
        digits_value(body) as int
    };
    if body.len() == 0 || !all_digits(body) || v < i64::MIN || v > i64::MAX {
        None
    } else {
        Some(v as i64)
    }
}

fn is_whitespace(c: char) -> (r: bool)
    ensures
        r == is_ws(c),
{
    ('\u{9}' <= c && c <= '\u{d}') || c == ' ' || c == '\u{85}' || c == '\u{a0}' || c
        == '\u{1680}' || ('\u{2000}' <= c && c <= '\u{200a}') || c == '\u{2028}' || c
        == '\u{2029}' || c == '\u{202f}' || c == '\u{205f}' || c == '\u{3000}'
}

/// The characters of a string slice.
fn chars_of(s: &str) -> (r: Vec<char>)
    ensures
        r@ == s@,
{
    let n = s.unicode_len();
    let mut out: Vec<char> = Vec::new();
    let mut i: usize = 0;
    while i < n
        invariant
            n == s@.len(),
            0 <= i <= n,
            out@ == s@.subrange(0, i as int),
        decreases n - i,
    {
        out.push(s.get_char(i));
        i += 1;
        assert(out@ =~= s@.subrange(0, i as int));
    }
    assert(out@ =~= s@);
    out
}

/// First position at or after `from` where `pat` occurs in `text`.
fn find_pattern(text: &Vec<char>, pat: &Vec<char>, from: usize) -> (r: Option<usize>)
    ensures
        r matches Some(p) ==> find_from(text@, pat@, from as int) == Some(p as int) && p
            + pat@.len() <= text@.len(),
        r is None ==> find_from(text@, pat@, from as int) is None,
{
    let n = text.len();
    let m = pat.len();
    if m > n || from > n - m {
        return None;
    }
    let mut i: usize = from;
    while i <= n - m
        invariant
            n == text@.len(),
            m == pat@.len(),
            m <= n,
            from <= i,
            find_from(text@, pat@, from as int) == find_from(text@, pat@, i as int),
        decreases n - i + 1,
    {
        let mut q: usize = 0;
        while q < m && text[i + q] == pat[q]
            invariant
                i + m <= n,
                n == text@.len(),
                m == pat@.len(),
                0 <= q <= m,
                text@.subrange(i as int, i + q) == pat@.subrange(0, q as int),
            decreases m - q,
        {
            q += 1;
            assert(text@.subrange(i as int, i + q) =~= pat@.subrange(0, q as int));
        }
        if q == m {
            assert(pat@.subrange(0, m as int) =~= pat@);
            return Some(i);
        }
        assert(!occurs_at(text@, pat@, i as int)) by {
            if occurs_at(text@, pat@, i as int) {
                assert(text@.subrange(i as int, i + m)[q as int] == text@[i + q]);
            }
        }
        i += 1;
    }
    None
}

/// First position at or after `from` that holds no white space (the length if none does).
fn skip_whitespace(text: &Vec<char>, from: usize) -> (r: usize)
    requires
        from <= text@.len(),
    ensures
        r == skip_ws(text@, from as int),
        from <= r <= text@.len(),
{
    let n = text.len();
    let mut s: usize = from;
    while s < n && is_whitespace(text[s])
        invariant
            n == text@.len(),
            from <= s <= n,
            skip_ws(text@, from as int) == skip_ws(text@, s as int),
        decreases n - s,
    {
        s += 1;
    }
    s
}

/// End of `text[lo..hi]` without its trailing white space.
fn trim_end_at(text: &Vec<char>, lo: usize, hi: usize) -> (r: usize)
    requires
        lo <= hi <= text@.len(),
    ensures
        r == trim_end(text@, lo as int, hi as int),
        lo <= r <= hi,
{
    let mut t: usize = hi;
    while t > lo && is_whitespace(text[t - 1])
        invariant
            lo <= t <= hi <= text@.len(),
            trim_end(text@, lo as int, hi as int) == trim_end(text@, lo as int, t as int),
        decreases t,
    {
        t -= 1;
    }
    t
}

/// Position where the value of field `key` starts in `line`.
fn locate_value(line: &Vec<char>, key: &str) -> (r: Option<usize>)
    ensures
        r matches Some(s) ==> value_start(line@, key@) == Some(s as int) && s <= line@.len(),
        r is None ==> value_start(line@, key@) is None,
{
    let k = chars_of(key);
    let mut marker: Vec<char> = Vec::new();
    marker.push('"');
    let mut j: usize = 0;
    while j < k.len()
        invariant
            0 <= j <= k@.len(),
            marker@ == seq!['"'] + k@.subrange(0, j as int),
        decreases k@.len() - j,
    {
        marker.push(k[j]);
        j += 1;
        assert(marker@ =~= seq!['"'] + k@.subrange(0, j as int));
    }
    marker.push('"');
    marker.push(':');
    assert(marker@ =~= field_marker(key@));
    let n = line.len();
    match find_pattern(line, &marker, 0) {
        Some(p) => Some(skip_whitespace(line, p + marker.len())),
        None => None,
    }
}

/// `<tag>`.
pub open spec fn open_tag(tag: Seq<char>) -> Seq<char> {
    seq!['<'] + tag + seq!['>']
}

/// `</tag>`.
pub open spec fn close_tag(tag: Seq<char>) -> Seq<char> {
    seq!['<', '/'] + tag + seq!['>']
}

/// The text inside the first `<tag>...</tag>` element, without surrounding white space.
pub open spec fn tag_field(xml: Seq<char>, tag: Seq<char>) -> Option<Seq<char>> {
    match find_from(xml, open_tag(tag), 0) {
        Some(i) => {
            let start = i + open_tag(tag).len();
            match find_from(xml, close_tag(tag), start) {
                Some(end) => {
                    let s = skip_ws(xml, start);
                    if s <= end {
                        Some(xml.subrange(s, trim_end(xml, s, end)))
                    } else {
                        Some(Seq::empty())
                    }
                },
                None => None,
            }
        },
        None => None,
    }
}

/// The text inside the first `<tag>...</tag>` element of `xml`, trimmed; `None` where the
/// element is missing or not closed.
pub fn tag_text(xml: &str, tag: &str) -> (r: Option<String>)
    ensures
        r matches Some(v) ==> tag_field(xml@, tag@) == Some(v@),
        r is None ==> tag_field(xml@, tag@) is None,
{
    let text = chars_of(xml);
    let t = chars_of(tag);
    let mut open: Vec<char> = Vec::new();
    let mut close: Vec<char> = Vec::new();
    open.push('<');
    close.push('<');
    close.push('/');
    let mut j: usize = 0;
    while j < t.len()
        invariant
            0 <= j <= t@.len(),
            open@ == seq!['<'] + t@.subrange(0, j as int),
            close@ == seq!['<', '/'] + t@.subrange(0, j as int),
        decreases t@.len() - j,
    {
        open.push(t[j]);
        close.push(t[j]);
        j += 1;
        assert(open@ =~= seq!['<'] + t@.subrange(0, j as int));
        assert(close@ =~= seq!['<', '/'] + t@.subrange(0, j as int));
    }
    open.push('>');
    close.push('>');
    assert(open@ =~= open_tag(tag@));
    assert(close@ =~= close_tag(tag@));
    let n = text.len();
    let start = match find_pattern(&text, &open, 0) {
        Some(i) => i + open.len(),
        None => {
            return None;
        },
    };
    let end = match find_pattern(&text, &close, start) {
        Some(e) => e,
        None => {
            return None;
        },
    };
    let s = skip_whitespace(&text, start);
    if s > end {
        return Some(String::new());
    }
    let e = trim_end_at(&text, s, end);
    Some(xml.substring_char(s, e).to_owned())
}

/// The string value of field `key` in a line of `"key":"value"` pairs: the text between
/// the quote that opens the value and the next quote; `None` where the field is missing or
/// its value is not a quoted string.
pub fn extract_str(line: &str, key: &str) -> (r: Option<String>)
    ensures
        r matches Some(v) ==> string_field(line@, key@) == Some(v@),
        r is None ==> string_field(line@, key@) is None,
{
    let text = chars_of(line);
    let s = match locate_value(&text, key) {
        Some(s) => s,
        None => {
            return None;
        },
    };
    let n = text.len();
    if s >= n || text[s] != '"' {
        return None;
    }
    let mut e: usize = s + 1;
    while e < n && text[e] != '"'
        invariant
            n == text@.len(),
            s + 1 <= e <= n,
            find_char(text@, '"', s + 1) == find_char(text@, '"', e as int),
        decreases n - e,
    {
        e += 1;
    }
    if e >= n {
        return None;
    }
    Some(line.substring_char(s + 1, e).to_owned())
}

/// The raw text of the value of field `key`: from its start up to the next `,` or `}`,
/// without surrounding white space; `None` where the field is missing.
pub fn value_text(line: &str, key: &str) -> (r: Option<String>)
    ensures
        r matches Some(v) ==> value_field(line@, key@) == Some(v@),
        r is None ==> value_field(line@, key@) is None,
{
    let text = chars_of(line);
    let s = match locate_value(&text, key) {
        Some(s) => s,
        None => {
            return None;
        },
    };
    let n = text.len();
    let mut e: usize = s;
    while e < n && text[e] != ',' && text[e] != '}'
        invariant
            n == text@.len(),
            s <= e <= n,
            value_end(text@, s as int) == value_end(text@, e as int),
        decreases n - e,
    {
        e += 1;
    }
    let t = trim_end_at(&text, s, e);
    Some(line.substring_char(s, t).to_owned())
}

/// Reads a base-ten `i64` as `str::parse::<i64>` does.
pub fn parse_i64_text(s: &str) -> (r: Option<i64>)
    ensures
        r == parse_i64(s@),
{
    let text = chars_of(s);
    let n = text.len();
    let neg = n > 0 && text[0] == '-';
    let first: usize = if n > 0 && (text[0] == '-' || text[0] == '+') {
        1
    } else {
        0
    };
    let ghost body = if n > 0 && (text@[0] == '-' || text@[0] == '+') {
        text@.drop_first()
    } else {
        text@
    };
    assert(body =~= text@.subrange(first as int, n as int));
    assert(text@ == s@);
    assert(body == (if s@.len() > 0 && (s@[0] == '-' || s@[0] == '+') {
        s@.drop_first()
    } else {
        s@
    }));
    if first == n {
        assert(parse_i64(s@) is None);
        return None;
    }
    let mut acc: u128 = 0;
    let mut i: usize = first;
    while i < n
        invariant
            n == text@.len(),
            text@ == s@,
            body == (if s@.len() > 0 && (s@[0] == '-' || s@[0] == '+') {
                s@.drop_first()
            } else {
                s@
            }),
            first <= i <= n,
            body == text@.subrange(first as int, n as int),
            all_digits(text@.subrange(first as int, i as int)),
            acc == digits_value(text@.subrange(first as int, i as int)),
            acc <= 0x8000_0000_0000_0000u128,
        decreases n - i,
    {
        let c = text[i];
        if c < '0' || c > '9' {
            assert(!all_digits(body)) by {
                assert(body[i - first] == c);
            }
            assert(parse_i64(s@) is None);
            return None;
        }
        let d = (c as u32 - '0' as u32) as u128;
        proof {
            let pre = text@.subrange(first as int, i + 1);
            assert(pre.drop_last() =~= text@.subrange(first as int, i as int));
            assert(pre.last() == c);
        }
        acc = acc * 10 + d;
        i += 1;
        proof {
            assert forall|j: int| 0 <= j < text@.subrange(first as int, i as int).len() implies '0' <= #[trigger] text@.subrange(
                first as int,
                i as int,
            )[j] && text@.subrange(first as int, i as int)[j] <= '9' by {
                if j < i - 1 - first {
                    assert(text@.subrange(first as int, i as int)[j] == text@.subrange(
                        first as int,
                        i - 1,
                    )[j]);
                }
            }
        }
        if acc > 0x8000_0000_0000_0000u128 {
            proof {
                if all_digits(body) {
                    lemma_digits_prefix_le(body, i - first);
                    assert(body.subrange(0, i - first) =~= text@.subrange(first as int, i as int));
                }
            }
            assert(parse_i64(s@) is None);
            return None;
        }
    }
    assert(text@.subrange(first as int, n as int) =~= body);
    if neg {
        if acc == 0x8000_0000_0000_0000u128 {
            Some(i64::MIN)
        } else {
            Some(-(acc as i64))
        }
    } else {
        if acc > 0x7fff_ffff_ffff_ffffu128 {
            None
        } else {
            Some(acc as i64)
        }
    }
}

/// A leading part of a digit sequence has no larger value.
proof fn lemma_digits_prefix_le(s: Seq<char>, k: int)
    requires
        0 <= k <= s.len(),
        all_digits(s),
    ensures
        digits_value(s.subrange(0, k)) <= digits_value(s),
    decreases s.len() - k,
{
    if k < s.len() {
        let t = s.subrange(0, k + 1);
        assert(t.drop_last() =~= s.subrange(0, k));
        assert('0' <= s[k] && s[k] <= '9');
        assert forall|i: int| 0 <= i < t.len() implies '0' <= #[trigger] t[i] && t[i] <= '9' by {
            assert(t[i] == s[i]);
        }
        lemma_digits_prefix_le(s, k + 1);
        assert(digits_value(t) >= digits_value(s.subrange(0, k)));
    } else {
        assert(s.subrange(0, k) =~= s);
    }
}

/// The integer value of field `key`, where its raw text reads as an `i64`.
pub fn extract_i64(line: &str, key: &str) -> (r: Option<i64>)
    ensures
        r == (match value_field(line@, key@) {
            Some(v) => parse_i64(v),
            None => None,
        }),
{
    match value_text(line, key) {
        Some(v) => parse_i64_text(v.as_str()),
        None => None,
    }
}

} // verus!
