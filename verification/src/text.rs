//! Character-level helpers: building strings, decimal and hexadecimal
//! numerals, padding, ASCII case and the `std` lowercase mapping.

use vstd::prelude::*;

verus! {

/// Appends one character with `String::push`.
#[verifier::external_body]
pub(crate) fn push_char(s: &mut String, c: char)
    ensures
        final(s)@ == old(s)@.push(c),
{
    s.push(c);
}

/// The Unicode lowercase mapping of a text, as `str::to_lowercase` of the
/// standard library computes it.
pub uninterp spec fn lowercase(text: Seq<char>) -> Seq<char>;

/// Lowercases `text` with `str::to_lowercase`. The mapping follows the
/// Unicode tables of the standard library and is only named here.
#[verifier::external_body]
pub(crate) fn to_lowercase(text: &str) -> (r: String)
    ensures
        r@ == lowercase(text@),
{
    text.to_lowercase()
}

/// The Unicode uppercase mapping of a text, as `str::to_uppercase` of the
/// standard library computes it.
pub uninterp spec fn uppercase(text: Seq<char>) -> Seq<char>;

/// Uppercases `text` with `str::to_uppercase`. The mapping follows the
/// Unicode tables of the standard library and is only named, save on ASCII
/// text: there, as the standard library documents for the ASCII letters,
/// `a` to `z` become `A` to `Z` and every other character stays.
#[verifier::external_body]
pub(crate) fn to_uppercase(text: &str) -> (r: String)
    ensures
        r@ == uppercase(text@),
        vstd::utf8::is_ascii_chars(text@) ==> r@ == upper_ascii_text(text@),
{
    text.to_uppercase()
}

/// The characters with the Unicode `White_Space` property, which
/// `char::is_whitespace` and so `str::trim` take as whitespace.
pub open spec fn white_space(c: char) -> bool {
    ||| '\u{9}' <= c && c <= '\u{d}'
    ||| c == ' '
    ||| c == '\u{85}'
    ||| c == '\u{a0}'
    ||| c == '\u{1680}'
    ||| '\u{2000}' <= c && c <= '\u{200a}'
    ||| c == '\u{2028}'
    ||| c == '\u{2029}'
    ||| c == '\u{202f}'
    ||| c == '\u{205f}'
    ||| c == '\u{3000}'
}

pub open spec fn trim_start(s: Seq<char>) -> Seq<char>
    decreases s.len(),
{
    if s.len() > 0 && white_space(s[0]) {
        trim_start(s.drop_first())
    } else {
        s
    }
}

pub open spec fn trim_end(s: Seq<char>) -> Seq<char>
    decreases s.len(),
{
    if s.len() > 0 && white_space(s.last()) {
        trim_end(s.drop_last())
    } else {
        s
    }
}

/// A text without the whitespace at either end (what `str::trim` leaves).
pub open spec fn trimmed(s: Seq<char>) -> Seq<char> {
    trim_end(trim_start(s))
}

fn is_white_space(c: char) -> (r: bool)
    ensures
        r == white_space(c),
{
    ('\u{9}' <= c && c <= '\u{d}') || c == ' ' || c == '\u{85}' || c == '\u{a0}' || c == '\u{1680}'
        || ('\u{2000}' <= c && c <= '\u{200a}') || c == '\u{2028}' || c == '\u{2029}' || c == '\u{202f}'
        || c == '\u{205f}' || c == '\u{3000}'
}

/// The characters without the whitespace at either end.
pub fn trim_chars(v: &Vec<char>) -> (r: Vec<char>)
    ensures
        r@ == trimmed(v@),
{
    let n = v.len();
    let mut lo: usize = 0;
    assert(v@.subrange(0, n as int) =~= v@);
    while lo < n && is_white_space(v[lo])
        invariant
            lo <= n,
            n == v.len(),
            trim_start(v@) == trim_start(v@.subrange(lo as int, n as int)),
        decreases n - lo,
    {
        assert(v@.subrange(lo as int + 1, n as int) =~= v@.subrange(lo as int, n as int).drop_first());
        lo = lo + 1;
    }
    assert(trim_start(v@) == v@.subrange(lo as int, n as int));
    let mut hi: usize = n;
    while hi > lo && is_white_space(v[hi - 1])
        invariant
            lo <= hi <= n,
            n == v.len(),
            trim_end(v@.subrange(lo as int, n as int)) == trim_end(v@.subrange(lo as int, hi as int)),
        decreases hi,
    {
        assert(v@.subrange(lo as int, hi as int - 1) =~= v@.subrange(lo as int, hi as int).drop_last());
        hi = hi - 1;
    }
    assert(trim_end(v@.subrange(lo as int, hi as int)) == v@.subrange(lo as int, hi as int));
    let mut r: Vec<char> = Vec::new();
    let mut i: usize = lo;
    while i < hi
        invariant
            lo <= i <= hi,
            hi <= v.len(),
            r@ == v@.subrange(lo as int, i as int),
        decreases hi - i,
    {
        r.push(v[i]);
        i = i + 1;
        assert(r@ =~= v@.subrange(lo as int, i as int));
    }
    r
}

/// Whether an answer to the deletion prompt confirms it: once lowercased
/// and trimmed, it is `y`.
pub open spec fn confirms(answer: Seq<char>) -> bool {
    trimmed(lowercase(answer)) == seq!['y']
}

/// `trim_start` drops the whitespace that leads a text: what is left
/// starts at the first character that is not whitespace.
proof fn lemma_trim_start_at(s: Seq<char>) -> (k: int)
    ensures
        0 <= k <= s.len(),
        trim_start(s) == s.subrange(k, s.len() as int),
        forall|j: int| 0 <= j < k ==> white_space(#[trigger] s[j]),
        k < s.len() ==> !white_space(s[k]),
    decreases s.len(),
{
    if s.len() > 0 && white_space(s[0]) {
        let rest = s.drop_first();
        let k1 = lemma_trim_start_at(rest);
        assert(rest.subrange(k1, rest.len() as int) =~= s.subrange(k1 + 1, s.len() as int));
        assert forall|j: int| 0 <= j < k1 + 1 implies white_space(#[trigger] s[j]) by {
            if j > 0 {
                assert(s[j] == rest[j - 1]);
            }
        }
        if k1 + 1 < s.len() {
            assert(s[k1 + 1] == rest[k1]);
        }
        k1 + 1
    } else {
        assert(s.subrange(0, s.len() as int) =~= s);
        0
    }
}

/// `trim_end` drops the whitespace that ends a text: what is left ends at
/// the last character that is not whitespace.
proof fn lemma_trim_end_at(s: Seq<char>) -> (m: int)
    ensures
        0 <= m <= s.len(),
        trim_end(s) == s.subrange(0, m),
        forall|j: int| m <= j < s.len() ==> white_space(#[trigger] s[j]),
        m > 0 ==> !white_space(s[m - 1]),
    decreases s.len(),
{
    if s.len() > 0 && white_space(s.last()) {
        let rest = s.drop_last();
        let m1 = lemma_trim_end_at(rest);
        assert(rest.subrange(0, m1) =~= s.subrange(0, m1));
        assert forall|j: int| m1 <= j < s.len() implies white_space(#[trigger] s[j]) by {
            if j < s.len() - 1 {
                assert(s[j] == rest[j]);
            }
        }
        if m1 > 0 {
            assert(s[m1 - 1] == rest[m1 - 1]);
        }
        m1
    } else {
        assert(s.subrange(0, s.len() as int) =~= s);
        s.len() as int
    }
}

/// An answer confirms a deletion exactly when, lowercased, it holds one
/// `y` and nothing else but whitespace.
pub proof fn law_confirms_lone_y(answer: Seq<char>)
    ensures
        confirms(answer) <==> exists|i: int| 0 <= i < lowercase(answer).len() && #[trigger] lowercase(answer)[i] == 'y'
            && forall|j: int| 0 <= j < lowercase(answer).len() && j != i ==> white_space(#[trigger] lowercase(answer)[j]),
{
    let l = lowercase(answer);
    let k = lemma_trim_start_at(l);
    let t = l.subrange(k, l.len() as int);
    let m = lemma_trim_end_at(t);
    assert(trimmed(l) == t.subrange(0, m));
    assert(!white_space('y'));
    if confirms(answer) {
        assert(t.subrange(0, m) == seq!['y']);
        assert(m == 1);
        assert(t[0] == t.subrange(0, m)[0]);
        assert(l[k] == t[0]);
        assert forall|j: int| 0 <= j < l.len() && j != k implies white_space(#[trigger] l[j]) by {
            if j > k {
                assert(l[j] == t[j - k]);
            }
        }
        assert(l[k] == 'y');
    }
    if exists|i: int| 0 <= i < l.len() && #[trigger] l[i] == 'y'
        && forall|j: int| 0 <= j < l.len() && j != i ==> white_space(#[trigger] l[j]) {
        let i = choose|i: int| 0 <= i < l.len() && #[trigger] l[i] == 'y'
            && forall|j: int| 0 <= j < l.len() && j != i ==> white_space(#[trigger] l[j]);
        assert(k <= i) by {
            if k > i {
                assert(white_space(l[i]));
            }
        }
        assert(k == i) by {
            if k < i {
                assert(white_space(l[k]));
            }
        }
        assert(t[0] == l[i]);
        assert(m >= 1) by {
            if m == 0 {
                assert(white_space(t[0]));
            }
        }
        assert(m == 1) by {
            if m > 1 {
                assert(t[m - 1] == l[k + m - 1]);
                assert(white_space(l[k + m - 1]));
            }
        }
        assert(t.subrange(0, m) =~= seq!['y']);
    }
}

/// A blank answer, or one of whitespace alone (such as pressing Enter),
/// never confirms a deletion: no is the default.
pub proof fn law_blank_answer_refuses(answer: Seq<char>)
    requires
        forall|i: int| 0 <= i < lowercase(answer).len() ==> white_space(#[trigger] lowercase(answer)[i]),
    ensures
        !confirms(answer),
{
    law_confirms_lone_y(answer);
    assert(!white_space('y'));
}

pub fn deletion_confirmed(answer: &str) -> (r: bool)
    ensures
        r == confirms(answer@),
        (forall|i: int| 0 <= i < lowercase(answer@).len() ==> white_space(#[trigger] lowercase(answer@)[i])) ==> !r,
{
    let lowered = to_lowercase(answer);
    let chars = trim_chars(&chars_of(lowered.as_str()));
    let r = chars.len() == 1 && chars[0] == 'y';
    assert(r ==> chars@ =~= seq!['y']);
    proof {
        if forall|i: int| 0 <= i < lowercase(answer@).len() ==> white_space(#[trigger] lowercase(answer@)[i]) {
            law_blank_answer_refuses(answer@);
        }
    }
    r
}

/// Whether two texts hold the same characters.
pub fn same_text(a: &str, b: &str) -> (r: bool)
    ensures
        r == (a@ == b@),
{
    let x = chars_of(a);
    let y = chars_of(b);
    if x.len() != y.len() {
        return false;
    }
    let mut i: usize = 0;
    while i < x.len()
        invariant
            i <= x.len(),
            x.len() == y.len(),
            x@ == a@,
            y@ == b@,
            forall|k: int| 0 <= k < i ==> x@[k] == y@[k],
        decreases x.len() - i,
    {
        if x[i] != y[i] {
            assert(x@[i as int] != y@[i as int]);
            return false;
        }
        i = i + 1;
    }
    assert(x@ =~= y@);
    true
}

/// Whether `a` is a prefix of `b`.
pub fn is_prefix(a: &Vec<char>, b: &Vec<char>) -> (r: bool)
    ensures
        r == a@.is_prefix_of(b@),
{
    if a.len() > b.len() {
        return false;
    }
    let mut i: usize = 0;
    while i < a.len()
        invariant
            i <= a.len(),
            a.len() <= b.len(),
            forall|k: int| 0 <= k < i ==> a@[k] == b@[k],
        decreases a.len() - i,
    {
        if a[i] != b[i] {
            return false;
        }
        i = i + 1;
    }
    assert(a@ =~= b@.subrange(0, a@.len() as int));
    true
}

/// A string holding exactly the given characters.
pub fn string_from_chars(chars: &Vec<char>) -> (r: String)
    ensures
        r@ == chars@,
{
    let mut r = String::new();
    let mut i: usize = 0;
    while i < chars.len()
        invariant
            i <= chars.len(),
            r@ == chars@.take(i as int),
        decreases chars.len() - i,
    {
        push_char(&mut r, chars[i]);
        i = i + 1;
        assert(r@ =~= chars@.take(i as int));
    }
    assert(chars@.take(i as int) =~= chars@);
    r
}

/// The characters of a text, in order.
pub fn chars_of(text: &str) -> (r: Vec<char>)
    ensures
        r@ == text@,
{
    let mut r: Vec<char> = Vec::new();
    for c in it: text.chars()
        invariant
            r@ == it.seq().take(it.index() as int),
    {
        r.push(c);
    }
    r
}

/// ASCII uppercase of one character; every other character is kept.
pub open spec fn upper_ascii(c: char) -> char {
    if 'a' <= c && c <= 'z' {
        ((c as u32) - 32) as char
    } else {
        c
    }
}

pub open spec fn upper_ascii_text(s: Seq<char>) -> Seq<char> {
    s.map_values(|c: char| upper_ascii(c))
}

/// ASCII lowercase of one character; every other character is kept.
pub open spec fn lower_ascii(c: char) -> char {
    if 'A' <= c && c <= 'Z' {
        ((c as u32) + 32) as char
    } else {
        c
    }
}

pub open spec fn lower_ascii_text(s: Seq<char>) -> Seq<char> {
    s.map_values(|c: char| lower_ascii(c))
}

} // verus!
