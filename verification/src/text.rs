//! Text helpers: character access, substring search, decimal parsing,
//! trimming of Unicode white space, and lowercasing as std performs it.
use vstd::prelude::*;
use vstd::string::*;

verus! {

/// What `str::to_lowercase` gives back for a text (Unicode lowercase mapping).
pub uninterp spec fn lowercase(text: Seq<char>) -> Seq<char>;

/// A character of the Unicode property White_Space, the characters that
/// `char::is_whitespace` accepts and `str::trim` removes.
pub open spec fn is_white_space(c: char) -> bool {
    ||| '\u{9}' <= c && c <= '\u{d}'
    ||| c == ' '
    ||| c == '\u{85}'
    ||| c == '\u{a0}'
    ||| c == '\u{1680}'
    ||| '\u{2000}' <= c && c <= '\u{200a}'
    ||| c == '\u{2028}'
    ||| c == '\u{2029}'
    ||| c == '\u{202f}'
    ||| c == '\u{205f}'
    ||| c == '\u{3000}'
}

/// The text with its leading white space removed.
pub open spec fn without_leading_space(text: Seq<char>) -> Seq<char>
    decreases text.len(),
{
    if text.len() > 0 && is_white_space(text[0]) {
        without_leading_space(text.drop_first())
    } else {
        text
    }
}

/// The text with its trailing white space removed.
pub open spec fn without_trailing_space(text: Seq<char>) -> Seq<char>
    decreases text.len(),
{
    if text.len() > 0 && is_white_space(text.last()) {
        without_trailing_space(text.drop_last())
    } else {
        text
    }
}

/// The text with leading and trailing white space removed, as `str::trim`
/// gives it back.
pub open spec fn trimmed(text: Seq<char>) -> Seq<char> {
    without_trailing_space(without_leading_space(text))
}

/// Every character of the text is ASCII.
pub open spec fn is_ascii_text(text: Seq<char>) -> bool {
    forall|i: int| 0 <= i < text.len() ==> (#[trigger] text[i]) <= '\u{7f}'
}

/// The text with the ASCII capitals A to Z made lowercase and every other
/// character left as it is.
pub open spec fn ascii_lowercase(text: Seq<char>) -> Seq<char> {
    text.map_values(|c: char| if 'A' <= c && c <= 'Z' { ((c as u32) + 32) as char } else { c })
}

/// Calls `str::to_lowercase`. Trusted: the result is the text that
/// `lowercase` names for the argument; and for an ASCII text it is that text
/// with A to Z made a to z and every other character kept, as the Unicode
/// lowercase mapping does for ASCII. Nothing more is claimed of it.
#[verifier::external_body]
pub(crate) fn to_lowercase(text: &str) -> (r: String)
    ensures
        r@ == lowercase(text@),
        is_ascii_text(text@) ==> r@ == ascii_lowercase(text@),
{
    text.to_lowercase()
}

/// Whether `c` is white space in the Unicode sense.
pub fn white_space(c: char) -> (r: bool)
    ensures
        r == is_white_space(c),
{
    ('\u{9}' <= c && c <= '\u{d}') || c == ' ' || c == '\u{85}' || c == '\u{a0}' || c == '\u{1680}'
        || ('\u{2000}' <= c && c <= '\u{200a}') || c == '\u{2028}' || c == '\u{2029}' || c
        == '\u{202f}' || c == '\u{205f}' || c == '\u{3000}'
}

/// The part of `text` without leading and trailing white space.
pub fn trim<'a>(text: &'a str) -> (r: &'a str)
    ensures
        r@ == trimmed(text@),
{
    let cs = chars_of(text);
    let n: usize = cs.len();
    let mut a: usize = 0;
    assert(text@.subrange(0, n as int) =~= text@);
    while a < n && white_space(cs[a])
        invariant
            cs@ == text@,
            n == cs@.len(),
            a <= n,
            without_leading_space(text@) == without_leading_space(text@.subrange(a as int, n as int)),
        decreases n - a,
    {
        assert(text@.subrange(a as int, n as int).drop_first() =~= text@.subrange(a + 1, n as int));
        a += 1;
    }
    let ghost rest = text@.subrange(a as int, n as int);
    assert(without_leading_space(rest) == rest);
    let mut b: usize = n;
    while b > a && white_space(cs[b - 1])
        invariant
            cs@ == text@,
            n == cs@.len(),
            a <= b <= n,
            rest == text@.subrange(a as int, n as int),
            without_trailing_space(rest) == without_trailing_space(text@.subrange(a as int, b as int)),
        decreases b - a,
    {
        assert(text@.subrange(a as int, b as int).drop_last() =~= text@.subrange(a as int, b - 1));
        b -= 1;
    }
    text.substring_char(a, b)
}

/// The characters of a text, in order.
pub fn chars_of(text: &str) -> (r: Vec<char>)
    ensures
        r@ == text@,
{
    let n: usize = text.unicode_len();
    let mut v: Vec<char> = Vec::new();
    let mut i: usize = 0;
    while i < n
        invariant
            n == text@.len(),
            i <= n,
            v@ == text@.subrange(0, i as int),
        decreases n - i,
    {
        let c = text.get_char(i);
        v.push(c);
        i += 1;
        assert(v@ =~= text@.subrange(0, i as int));
    }
    assert(v@ =~= text@);
    v
}

/// Whether two texts are the same sequence of characters.
pub fn same_text(a: &str, b: &str) -> (r: bool)
    ensures
        r == (a@ == b@),
{
    a.to_owned() == b.to_owned()
}

/// `needle` occurs in `hay` starting at position `i`.
pub open spec fn occurs_at(hay: Seq<char>, needle: Seq<char>, i: int) -> bool {
    &&& 0 <= i
    &&& i + needle.len() <= hay.len()
    &&& hay.subrange(i, i + needle.len()) == needle
}

/// `needle` is a contiguous part of `hay` (every text contains the empty text).
pub open spec fn contains_text(hay: Seq<char>, needle: Seq<char>) -> bool {
    exists|i: int| occurs_at(hay, needle, i)
}

/// Whether `needle` occurs in `hay`, as `str::contains` with a `&str` pattern.
pub fn text_contains(hay: &str, needle: &str) -> (r: bool)
    ensures
        r == contains_text(hay@, needle@),
{
    let h = chars_of(hay);
    let n = chars_of(needle);
    let hl: usize = h.len();
    let nl: usize = n.len();
    if nl > hl {
        assert forall|i: int| !occurs_at(hay@, needle@, i) by {}
        return false;
    }
    let mut i: usize = 0;
    while i <= hl - nl
        invariant
            h@ == hay@,
            n@ == needle@,
            hl == h@.len(),
            nl == n@.len(),
            nl <= hl,
            i <= hl - nl + 1,
            forall|k: int| 0 <= k < i ==> !occurs_at(hay@, needle@, k),
        decreases hl - nl + 1 - i,
    {
        let mut j: usize = 0;
        let mut same = true;
        while j < nl
            invariant
                h@ == hay@,
                n@ == needle@,
                hl == h@.len(),
                nl == n@.len(),
                i + nl <= hl,
                j <= nl,
                same == (forall|m: int| 0 <= m < j ==> h@[i + m] == n@[m]),
            decreases nl - j,
        {
            if h[i + j] != n[j] {
                same = false;
            }
            j += 1;
        }
        if same {
            assert(hay@.subrange(i as int, i + nl) =~= needle@);
            assert(occurs_at(hay@, needle@, i as int));
            return true;
        }
        assert(!occurs_at(hay@, needle@, i as int)) by {
            let m: int = choose|m: int| 0 <= m < nl && h@[i + m] != n@[m];
            if hay@.subrange(i as int, i + nl) == needle@ {
                assert(hay@.subrange(i as int, i + nl)[m] == needle@[m]);
            }
        }
        i += 1;
    }
    assert forall|k: int| !occurs_at(hay@, needle@, k) by {
        if 0 <= k && k + nl <= hl {
            assert(k < i);
        }
    }
    false
}

/// An ASCII decimal digit.
pub open spec fn is_digit(c: char) -> bool {
    '0' <= c && c <= '9'
}

/// The value of a sequence of decimal digits, most significant first.
pub open spec fn digits_value(s: Seq<char>) -> nat
    decreases s.len(),
{
    if s.len() == 0 {
        0
    } else {
        digits_value(s.drop_last()) * 10 + ((s.last() as int) - ('0' as int)) as nat
    }
}

/// The digits that a decimal text for an unsigned number holds: the text
/// with one leading `+` removed, if it has one.
pub open spec fn unsigned_digits(s: Seq<char>) -> Seq<char> {
    if s.len() > 0 && s[0] == '+' {
        s.drop_first()
    } else {
        s
    }
}

/// What `u32::from_str` accepts: an optional `+` followed by at least one
/// ASCII digit, with a value that fits in a `u32`.
pub open spec fn decimal_u32(s: Seq<char>) -> Option<u32> {
    let d = unsigned_digits(s);
    if d.len() > 0 && (forall|i: int| 0 <= i < d.len() ==> is_digit(d[i])) && digits_value(d)
        <= u32::MAX {
        Some(digits_value(d) as u32)
    } else {
        None
    }
}

/// A prefix of an all-digit text has no greater value than the text.
proof fn lemma_digits_prefix_le(s: Seq<char>, k: int)
    requires
        0 <= k <= s.len(),
        forall|i: int| 0 <= i < s.len() ==> is_digit(s[i]),
    ensures
        digits_value(s.subrange(0, k)) <= digits_value(s),
    decreases s.len() - k,
{
    if k < s.len() {
        lemma_digits_prefix_le(s, k + 1);
        let p = s.subrange(0, k + 1);
        assert(p.drop_last() =~= s.subrange(0, k));
        assert(is_digit(p.last()));
    } else {
        assert(s.subrange(0, k) =~= s);
    }
}

/// Parses a decimal `u32` as `str::parse::<u32>` does; `None` where it fails.
pub fn parse_u32(text: &str) -> (r: Option<u32>)
    ensures
        r == decimal_u32(text@),
{
    let cs = chars_of(text);
    let n: usize = cs.len();
    let ghost d = unsigned_digits(text@);
    let mut start: usize = 0;
    if n > 0 && cs[0] == '+' {
        start = 1;
    }
    assert(d =~= text@.subrange(start as int, n as int));
    if start == n {
        return None;
    }
    let mut val: u64 = 0;
    let mut i: usize = start;
    while i < n
        invariant
            cs@ == text@,
            n == cs@.len(),
            start <= i <= n,
            start < n,
            d == text@.subrange(start as int, n as int),
            d == unsigned_digits(text@),
            forall|k: int| 0 <= k < i - start ==> is_digit(d[k]),
            val == digits_value(d.subrange(0, i - start)),
            val <= u32::MAX,
        decreases n - i,
    {
        let c = cs[i];
        if !('0' <= c && c <= '9') {
            assert(!is_digit(d[i - start]));
            return None;
        }
        let dv: u64 = (c as u64) - ('0' as u64);
        let nv: u64 = val * 10 + dv;
        assert(d.subrange(0, i + 1 - start).drop_last() =~= d.subrange(0, i - start));
        assert(d.subrange(0, i + 1 - start).last() == c);
        assert(nv == digits_value(d.subrange(0, i + 1 - start)));
        if nv > 4294967295u64 {
            proof {
                if forall|k: int| 0 <= k < d.len() ==> is_digit(d[k]) {
                    lemma_digits_prefix_le(d, i + 1 - start);
                }
            }
            return None;
        }
        val = nv;
        i += 1;
    }
    assert(d.subrange(0, n - start) =~= d);
    Some(val as u32)
}

} // verus!
