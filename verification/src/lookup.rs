//! Finding a task or an event from a (possibly abbreviated) id.

use vstd::prelude::*;
use crate::numerals::{digit_char, hex_text, id_chars, id_text};
use crate::text::{chars_of, is_prefix, lower_ascii, lower_ascii_text, to_uppercase, upper_ascii, upper_ascii_text, uppercase};
use vstd::utf8::is_ascii_chars;

verus! {

/// The outcome of looking an item up by id prefix.
#[derive(Clone, Copy, Debug, PartialEq, Eq, Structural)]
pub enum Lookup {
    /// Exactly one item matched; its position.
    Found(usize),
    /// No item matched.
    Missing,
    /// Several items matched; how many.
    Ambiguous(usize),
}

/// An id matches a query when the upper-cased query begins its label.
pub open spec fn label_matches(id: u32, upper_query: Seq<char>) -> bool {
    upper_query.is_prefix_of(id_text(id))
}

/// The positions, in increasing order, of the ids that the upper-cased query matches.
pub open spec fn matching_positions(ids: Seq<u32>, upper_query: Seq<char>) -> Seq<int>
    decreases ids.len(),
{
    if ids.len() == 0 {
        Seq::empty()
    } else {
        let rest = matching_positions(ids.drop_last(), upper_query);
        if label_matches(ids.last(), upper_query) {
            rest.push(ids.len() - 1)
        } else {
            rest
        }
    }
}

pub open spec fn lookup_from(positions: Seq<int>) -> Lookup {
    if positions.len() == 0 {
        Lookup::Missing
    } else if positions.len() == 1 {
        Lookup::Found(positions[0] as usize)
    } else {
        Lookup::Ambiguous(positions.len() as usize)
    }
}

/// What a lookup of `query` among `ids` gives.
pub open spec fn lookup_of(ids: Seq<u32>, query: Seq<char>) -> Lookup {
    lookup_from(matching_positions(ids, uppercase(query)))
}

/// `matching_positions` holds exactly the matching positions, each once, in
/// increasing order.
pub proof fn lemma_matching_positions(ids: Seq<u32>, q: Seq<char>)
    ensures
        forall|k: int| #![trigger matching_positions(ids, q).contains(k)]
            matching_positions(ids, q).contains(k) <==> (0 <= k < ids.len() && label_matches(ids[k], q)),
        forall|a: int, b: int|
            0 <= a < b < matching_positions(ids, q).len() ==> matching_positions(ids, q)[a]
                < matching_positions(ids, q)[b],
        forall|a: int|
            0 <= a < matching_positions(ids, q).len() ==> 0 <= #[trigger] matching_positions(ids, q)[a]
                < ids.len(),
    decreases ids.len(),
{
    if ids.len() > 0 {
        let init = ids.drop_last();
        lemma_matching_positions(init, q);
        let rest = matching_positions(init, q);
        assert forall|k: int| #![trigger matching_positions(ids, q).contains(k)]
            matching_positions(ids, q).contains(k) <==> (0 <= k < ids.len() && label_matches(ids[k], q)) by {
            if k < ids.len() - 1 && 0 <= k {
                assert(ids[k] == init[k]);
            }
            if rest.contains(k) {
                let w = choose|w: int| 0 <= w < rest.len() && rest[w] == k;
                if label_matches(ids.last(), q) {
                    assert(matching_positions(ids, q)[w] == k);
                }
            }
            if label_matches(ids.last(), q) && matching_positions(ids, q).contains(k) {
                let w = choose|w: int| 0 <= w < matching_positions(ids, q).len() && matching_positions(ids, q)[w] == k;
                if w < rest.len() {
                    assert(rest[w] == k);
                }
            }
            if label_matches(ids.last(), q) && k == ids.len() - 1 {
                assert(matching_positions(ids, q)[rest.len() as int] == k);
            }
        }
    }
}

/// Looks `query` up among `ids`: the query is upper-cased with
/// `to_uppercase` and must begin the six-digit label of an id.
pub fn find_by_id(query: &str, ids: &Vec<u32>) -> (r: Lookup)
    ensures
        r == lookup_of(ids@, query@),
        r matches Lookup::Found(i) ==> i < ids.len() && label_matches(ids@[i as int], uppercase(query@))
            && forall|j: int| 0 <= j < ids.len() && j != i ==> !label_matches(#[trigger] ids@[j], uppercase(query@)),
        r is Missing <==> forall|j: int| 0 <= j < ids.len() ==> !label_matches(#[trigger] ids@[j], uppercase(query@)),
        r matches Lookup::Ambiguous(n) ==> n >= 2 && exists|a: int, b: int|
            0 <= a < b < ids.len() && label_matches(#[trigger] ids@[a], uppercase(query@))
                && label_matches(#[trigger] ids@[b], uppercase(query@)),
        is_ascii_chars(query@) ==> r == lookup_from(matching_positions(ids@, upper_ascii_text(query@))),
        forall|k: int| 0 <= k < ids@.len() && labels_apart(ids@) && is_ascii_chars(query@)
            && upper_ascii_text(query@) == id_text(#[trigger] ids@[k]) ==> r == Lookup::Found(k as usize),
{
    let upper = to_uppercase(query);
    let wanted = chars_of(upper.as_str());
    let ghost q = uppercase(query@);
    let mut matches: Vec<usize> = Vec::new();
    let mut i: usize = 0;
    while i < ids.len()
        invariant
            i <= ids.len(),
            wanted@ == q,
            matches@.map_values(|m: usize| m as int) == matching_positions(ids@.take(i as int), q),
        decreases ids.len() - i,
    {
        let label = id_chars(ids[i]);
        let hit = is_prefix(&wanted, &label);
        let ghost before = matches@;
        assert(ids@.take(i as int + 1).drop_last() =~= ids@.take(i as int));
        if hit {
            matches.push(i);
            assert(matches@.map_values(|m: usize| m as int) =~= before.map_values(|m: usize| m as int).push(i as int));
        }
        i = i + 1;
    }
    assert(ids@.take(i as int) =~= ids@);
    proof {
        lemma_matching_positions(ids@, q);
    }
    proof {
        assert forall|k: int| 0 <= k < ids@.len() && labels_apart(ids@) && is_ascii_chars(query@)
            && upper_ascii_text(query@) == id_text(#[trigger] ids@[k]) implies
            lookup_from(matching_positions(ids@, q)) == Lookup::Found(k as usize) by {
            law_full_label_selects(ids@, k);
        }
    }
    let ghost positions = matching_positions(ids@, q);
    assert(positions.len() == matches@.len());
    if matches.len() == 0 {
        assert forall|j: int| 0 <= j < ids.len() implies !label_matches(#[trigger] ids@[j], q) by {
            if label_matches(ids@[j], q) {
                assert(positions.contains(j));
            }
        }
        Lookup::Missing
    } else if matches.len() == 1 {
        assert(positions[0] == matches@[0] as int);
        assert(positions.contains(positions[0]));
        assert forall|j: int| 0 <= j < ids.len() && j != matches@[0] implies !label_matches(#[trigger] ids@[j], q) by {
            if label_matches(ids@[j], q) {
                assert(positions.contains(j));
            }
        }
        Lookup::Found(matches[0])
    } else {
        assert(positions.contains(positions[0]));
        assert(positions.contains(positions[1]));
        assert(label_matches(ids@[positions[0]], q) && label_matches(ids@[positions[1]], q));
        Lookup::Ambiguous(matches.len())
    }
}

/// The value of a hexadecimal digit character.
pub open spec fn digit_value(c: char) -> int {
    if c == '1' { 1 } else if c == '2' { 2 } else if c == '3' { 3 } else if c == '4' { 4 }
    else if c == '5' { 5 } else if c == '6' { 6 } else if c == '7' { 7 } else if c == '8' { 8 }
    else if c == '9' { 9 } else if c == 'A' { 10 } else if c == 'B' { 11 } else if c == 'C' { 12 }
    else if c == 'D' { 13 } else if c == 'E' { 14 } else if c == 'F' { 15 } else { 0 }
}

/// The value of a hexadecimal numeral.
pub open spec fn hex_value(s: Seq<char>) -> int
    decreases s.len(),
{
    if s.len() == 0 {
        0
    } else {
        hex_value(s.drop_last()) * 16 + digit_value(s.last())
    }
}

proof fn lemma_digit_round(v: int)
    requires
        0 <= v < 16,
    ensures
        digit_value(digit_char(v)) == v,
{
}

proof fn lemma_hex_value_of_text(n: nat)
    ensures
        hex_value(hex_text(n)) == n,
    decreases n,
{
    if n < 16 {
        lemma_digit_round(n as int);
        let t = hex_text(n);
        assert(t.drop_last() =~= Seq::<char>::empty());
        assert(hex_value(t.drop_last()) == 0);
        assert(t.last() == digit_char(n as int));
    } else {
        lemma_hex_value_of_text(n / 16);
        lemma_digit_round((n % 16) as int);
        let t = hex_text(n);
        assert(t.drop_last() =~= hex_text(n / 16));
        assert(t.last() == digit_char((n % 16) as int));
        assert(hex_value(t) == hex_value(hex_text(n / 16)) * 16 + (n % 16));
        assert((n / 16) * 16 + n % 16 == n);
    }
}

proof fn lemma_hex_text_len(n: nat)
    ensures
        hex_text(n).len() >= 1,
        n < 16 ==> hex_text(n).len() <= 1,
        n < 0x100 ==> hex_text(n).len() <= 2,
        n < 0x1000 ==> hex_text(n).len() <= 3,
        n < 0x10000 ==> hex_text(n).len() <= 4,
        n < 0x100000 ==> hex_text(n).len() <= 5,
        n < 0x1000000 ==> hex_text(n).len() <= 6,
    decreases n,
{
    if n >= 16 {
        lemma_hex_text_len(n / 16);
    }
}

proof fn lemma_leading_zeros(k: nat, s: Seq<char>)
    ensures
        hex_value(Seq::new(k, |_i: int| '0') + s) == hex_value(s),
    decreases s.len(), k,
{
    let z = Seq::new(k, |_i: int| '0');
    if s.len() == 0 {
        assert(z + s =~= z);
        if k > 0 {
            assert(z.drop_last() =~= Seq::new((k - 1) as nat, |_i: int| '0'));
            lemma_leading_zeros((k - 1) as nat, s);
            assert(Seq::new((k - 1) as nat, |_i: int| '0') + s =~= Seq::new((k - 1) as nat, |_i: int| '0'));
        }
    } else {
        assert((z + s).drop_last() =~= z + s.drop_last());
        lemma_leading_zeros(k, s.drop_last());
    }
}

/// Below 2^24, different ids have different labels, each six characters long.
pub proof fn lemma_labels_distinct(a: u32, b: u32)
    requires
        a < 0x1000000,
        b < 0x1000000,
    ensures
        id_text(a).len() == 6,
        id_text(a) == id_text(b) ==> a == b,
{
    lemma_hex_text_len(a as nat);
    lemma_hex_text_len(b as nat);
    lemma_hex_value_of_text(a as nat);
    lemma_hex_value_of_text(b as nat);
    let ta = hex_text(a as nat);
    let tb = hex_text(b as nat);
    if ta.len() < 6 {
        lemma_leading_zeros((6 - ta.len()) as nat, ta);
    }
    if tb.len() < 6 {
        lemma_leading_zeros((6 - tb.len()) as nat, tb);
    }
    assert(hex_value(id_text(a)) == a);
    assert(hex_value(id_text(b)) == b);
}

proof fn lemma_digit_case(v: int)
    requires
        0 <= v < 16,
    ensures
        '\0' <= digit_char(v) <= '\u{7f}',
        upper_ascii(digit_char(v)) == digit_char(v),
        '\0' <= lower_ascii(digit_char(v)) <= '\u{7f}',
        upper_ascii(lower_ascii(digit_char(v))) == digit_char(v),
{
}

proof fn lemma_hex_text_digits(n: nat)
    ensures
        forall|i: int| 0 <= i < hex_text(n).len() ==> exists|v: int| 0 <= v < 16 && #[trigger] hex_text(n)[i] == digit_char(v),
    decreases n,
{
    if n >= 16 {
        lemma_hex_text_digits(n / 16);
        assert forall|i: int| 0 <= i < hex_text(n).len() implies exists|v: int| 0 <= v < 16 && #[trigger] hex_text(n)[i] == digit_char(v) by {
            if i < hex_text(n / 16).len() {
                assert(hex_text(n)[i] == hex_text(n / 16)[i]);
            } else {
                assert(hex_text(n)[i] == digit_char((n % 16) as int));
            }
        }
    } else {
        assert(hex_text(n)[0] == digit_char(n as int));
    }
}

/// A label is ASCII, upper-casing leaves it as it is, and upper-casing its
/// lowercase form gives it back; so the label and its lowercase form both
/// look up as the label.
pub proof fn lemma_label_case(x: u32)
    ensures
        is_ascii_chars(id_text(x)),
        upper_ascii_text(id_text(x)) == id_text(x),
        is_ascii_chars(lower_ascii_text(id_text(x))),
        upper_ascii_text(lower_ascii_text(id_text(x))) == id_text(x),
{
    lemma_hex_text_digits(x as nat);
    let t = id_text(x);
    let h = hex_text(x as nat);
    assert forall|i: int| 0 <= i < t.len() implies exists|v: int| 0 <= v < 16 && #[trigger] t[i] == digit_char(v) by {
        if h.len() < 6 && i < 6 - h.len() {
            assert(t[i] == '0' && digit_char(0) == '0');
        } else if h.len() < 6 {
            assert(t[i] == h[i - (6 - h.len())]);
        } else {
            assert(t[i] == h[i]);
        }
    }
    assert forall|i: int| 0 <= i < t.len() implies '\0' <= #[trigger] t[i] <= '\u{7f}' && upper_ascii(t[i]) == t[i]
        && '\0' <= lower_ascii(t[i]) <= '\u{7f}' && upper_ascii(lower_ascii(t[i])) == t[i] by {
        let v = choose|v: int| 0 <= v < 16 && t[i] == digit_char(v);
        lemma_digit_case(v);
    }
    assert(upper_ascii_text(t) =~= t);
    let l = lower_ascii_text(t);
    assert forall|i: int| 0 <= i < l.len() implies '\0' <= #[trigger] l[i] <= '\u{7f}' by {
        assert(l[i] == lower_ascii(t[i]));
    }
    assert(upper_ascii_text(l) =~= t);
}

/// Ids are 24-bit and no two are alike (so their labels are all different).
pub open spec fn labels_apart(ids: Seq<u32>) -> bool {
    &&& forall|i: int| 0 <= i < ids.len() ==> #[trigger] ids[i] < 0x1000000
    &&& forall|i: int, j: int| 0 <= i < j < ids.len() ==> #[trigger] ids[i] != #[trigger] ids[j]
}

/// When ids are 24-bit and no two are alike, the full six-digit label of an
/// item selects exactly that item.
pub proof fn law_full_label_selects(ids: Seq<u32>, k: int)
    requires
        0 <= k < ids.len(),
        labels_apart(ids),
    ensures
        lookup_from(matching_positions(ids, id_text(ids[k]))) == Lookup::Found(k as usize),
{
    let q = id_text(ids[k]);
    lemma_matching_positions(ids, q);
    let p = matching_positions(ids, q);
    assert forall|j: int| 0 <= j < ids.len() && label_matches(ids[j], q) implies j == k by {
        lemma_labels_distinct(ids[j], ids[k]);
        lemma_labels_distinct(ids[k], ids[j]);
        assert(q =~= id_text(ids[j]).subrange(0, q.len() as int));
        assert(id_text(ids[j]).subrange(0, 6) =~= id_text(ids[j]));
        if j < k {
            assert(ids[j] != ids[k]);
        } else if j > k {
            assert(ids[k] != ids[j]);
        }
    }
    assert(label_matches(ids[k], q)) by {
        lemma_labels_distinct(ids[k], ids[k]);
        assert(q =~= id_text(ids[k]).subrange(0, q.len() as int));
    }
    assert(p.contains(k));
    if p.len() >= 2 {
        assert(p.contains(p[0]) && p.contains(p[1]));
        assert(p[0] < p[1]);
    }
}

} // verus!
