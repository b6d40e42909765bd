//! The order and equality of strings, stated over their UTF-8 bytes.

use vstd::prelude::*;
use vstd::relations::*;
use vstd::utf8::*;

verus! {

/// Whether `a`, read from index `from` on, comes before or equals `b` read from the same index,
/// in the lexicographic order of bytes.
pub open spec fn bytes_le_from(a: Seq<u8>, b: Seq<u8>, from: int) -> bool
    decreases a.len() - from,
{
    if from >= a.len() {
        true
    } else if from >= b.len() {
        false
    } else if a[from] != b[from] {
        a[from] < b[from]
    } else {
        bytes_le_from(a, b, from + 1)
    }
}

/// The lexicographic order of byte strings.
pub open spec fn bytes_le(a: Seq<u8>, b: Seq<u8>) -> bool {
    bytes_le_from(a, b, 0)
}

/// The order of strings: lexicographic by the bytes of their UTF-8 encoding.
pub open spec fn text_le(a: Seq<char>, b: Seq<char>) -> bool {
    bytes_le(encode_utf8(a), encode_utf8(b))
}

/// `text_le` as a relation, in the form that sequence sorting takes.
pub open spec fn text_order() -> spec_fn(Seq<char>, Seq<char>) -> bool {
    |a: Seq<char>, b: Seq<char>| text_le(a, b)
}

/// Two byte strings that are equal before `from`, and each at most the other from there on,
/// are equal.
proof fn lemma_bytes_le_antisymmetric_from(a: Seq<u8>, b: Seq<u8>, from: int)
    requires
        0 <= from,
        bytes_le_from(a, b, from),
        bytes_le_from(b, a, from),
        from <= a.len(),
        from <= b.len(),
        a.subrange(0, from) == b.subrange(0, from),
    ensures
        a == b,
    decreases a.len() - from,
{
    if from >= a.len() {
        assert(from >= b.len());
        assert(a =~= a.subrange(0, from));
        assert(b =~= b.subrange(0, from));
    } else {
        assert(from < b.len());
        assert(a[from] == b[from]);
        assert(a.subrange(0, from + 1) =~= a.subrange(0, from).push(a[from]));
        assert(b.subrange(0, from + 1) =~= b.subrange(0, from).push(b[from]));
        lemma_bytes_le_antisymmetric_from(a, b, from + 1);
    }
}

proof fn lemma_bytes_le_reflexive_from(a: Seq<u8>, from: int)
    requires
        0 <= from,
    ensures
        bytes_le_from(a, a, from),
    decreases a.len() - from,
{
    if from < a.len() {
        lemma_bytes_le_reflexive_from(a, from + 1);
    }
}

proof fn lemma_bytes_le_total_from(a: Seq<u8>, b: Seq<u8>, from: int)
    requires
        0 <= from,
    ensures
        bytes_le_from(a, b, from) || bytes_le_from(b, a, from),
    decreases a.len() - from,
{
    if from < a.len() && from < b.len() && a[from] == b[from] {
        lemma_bytes_le_total_from(a, b, from + 1);
    }
}

proof fn lemma_bytes_le_transitive_from(a: Seq<u8>, b: Seq<u8>, c: Seq<u8>, from: int)
    requires
        0 <= from,
        bytes_le_from(a, b, from),
        bytes_le_from(b, c, from),
    ensures
        bytes_le_from(a, c, from),
    decreases a.len() - from,
{
    if from < a.len() && from < b.len() && from < c.len() && a[from] == b[from] && b[from]
        == c[from] {
        lemma_bytes_le_transitive_from(a, b, c, from + 1);
    }
}

/// The order of byte strings is a total order.
pub proof fn lemma_bytes_le_total_order()
    ensures
        total_ordering(|a: Seq<u8>, b: Seq<u8>| bytes_le(a, b)),
{
    let le = |a: Seq<u8>, b: Seq<u8>| bytes_le(a, b);
    assert forall|a: Seq<u8>| #[trigger] le(a, a) by {
        lemma_bytes_le_reflexive_from(a, 0);
    }
    assert forall|a: Seq<u8>, b: Seq<u8>| #[trigger] le(a, b) && #[trigger] le(b, a) implies a
        == b by {
        assert(a.subrange(0, 0) =~= b.subrange(0, 0));
        lemma_bytes_le_antisymmetric_from(a, b, 0);
    }
    assert forall|a: Seq<u8>, b: Seq<u8>, c: Seq<u8>| #[trigger] le(a, b) && #[trigger] le(
        b,
        c,
    ) implies le(a, c) by {
        lemma_bytes_le_transitive_from(a, b, c, 0);
    }
    assert forall|a: Seq<u8>, b: Seq<u8>| #[trigger] le(a, b) || #[trigger] le(b, a) by {
        lemma_bytes_le_total_from(a, b, 0);
    }
}

/// Two strings with the same UTF-8 encoding are the same string.
pub proof fn lemma_encoding_injective(a: Seq<char>, b: Seq<char>)
    requires
        encode_utf8(a) == encode_utf8(b),
    ensures
        a == b,
{
    encode_utf8_decode_utf8(a);
    encode_utf8_decode_utf8(b);
}

/// The order of strings is a total order: reflexive, antisymmetric, transitive, and any two
/// strings are comparable.
pub proof fn lemma_text_order_total()
    ensures
        total_ordering(text_order()),
{
    let le = text_order();
    lemma_bytes_le_total_order();
    let ble = |a: Seq<u8>, b: Seq<u8>| bytes_le(a, b);
    assert forall|a: Seq<char>| #[trigger] le(a, a) by {
        assert(ble(encode_utf8(a), encode_utf8(a)));
    }
    assert forall|a: Seq<char>, b: Seq<char>| #[trigger] le(a, b) && #[trigger] le(b, a) implies a
        == b by {
        assert(ble(encode_utf8(a), encode_utf8(b)) && ble(encode_utf8(b), encode_utf8(a)));
        lemma_encoding_injective(a, b);
    }
    assert forall|a: Seq<char>, b: Seq<char>, c: Seq<char>| #[trigger] le(a, b) && #[trigger] le(
        b,
        c,
    ) implies le(a, c) by {
        assert(ble(encode_utf8(a), encode_utf8(b)) && ble(encode_utf8(b), encode_utf8(c)));
        assert(ble(encode_utf8(a), encode_utf8(c)));
    }
    assert forall|a: Seq<char>, b: Seq<char>| #[trigger] le(a, b) || #[trigger] le(b, a) by {
        assert(ble(encode_utf8(a), encode_utf8(b)) || ble(encode_utf8(b), encode_utf8(a)));
    }
}

/// Whether `a` comes before or equals `b` in the order of byte strings.
pub fn slice_le(a: &[u8], b: &[u8]) -> (r: bool)
    ensures
        r == bytes_le(a@, b@),
{
    let mut i: usize = 0;
    while i < a.len() && i < b.len()
        invariant
            i <= a.len(),
            i <= b.len(),
            bytes_le(a@, b@) == bytes_le_from(a@, b@, i as int),
        decreases a.len() - i,
    {
        if a[i] != b[i] {
            return a[i] < b[i];
        }
        i += 1;
    }
    i >= a.len()
}

/// Whether two byte strings are equal.
pub fn slice_eq(a: &[u8], b: &[u8]) -> (r: bool)
    ensures
        r == (a@ == b@),
{
    if a.len() != b.len() {
        return false;
    }
    let mut i: usize = 0;
    while i < a.len()
        invariant
            i <= a.len(),
            a.len() == b.len(),
            a@.subrange(0, i as int) == b@.subrange(0, i as int),
        decreases a.len() - i,
    {
        if a[i] != b[i] {
            return false;
        }
        proof {
            assert(a@.subrange(0, i + 1) =~= a@.subrange(0, i as int).push(a@[i as int]));
            assert(b@.subrange(0, i + 1) =~= b@.subrange(0, i as int).push(b@[i as int]));
        }
        i += 1;
    }
    proof {
        assert(a@ =~= a@.subrange(0, i as int));
        assert(b@ =~= b@.subrange(0, i as int));
    }
    true
}

/// Whether `a` comes before or equals `b` in the order of strings.
pub fn str_le(a: &str, b: &str) -> (r: bool)
    ensures
        r == text_le(a@, b@),
{
    slice_le(a.as_bytes(), b.as_bytes())
}

/// Whether two strings hold the same characters.
pub fn str_eq(a: &str, b: &str) -> (r: bool)
    ensures
        r == (a@ == b@),
{
    let r = slice_eq(a.as_bytes(), b.as_bytes());
    proof {
        if r {
            lemma_encoding_injective(a@, b@);
        }
    }
    r
}

/// The characters of each string of a sequence.
pub open spec fn texts(strings: Seq<String>) -> Seq<Seq<char>> {
    strings.map_values(|s: String| s@)
}

/// The strings of `parts` in their order, with `separator` between each two neighbours.
pub open spec fn join(parts: Seq<Seq<char>>, separator: Seq<char>) -> Seq<char>
    decreases parts.len(),
{
    if parts.len() == 0 {
        Seq::empty()
    } else if parts.len() == 1 {
        parts[0]
    } else {
        join(parts.drop_last(), separator) + separator + parts.last()
    }
}

/// Joins the strings of `parts` with `separator` between them.
pub fn join_strings(parts: &Vec<String>, separator: &str) -> (joined: String)
    ensures
        joined@ == join(texts(parts@), separator@),
{
    let mut joined = String::new();
    let mut i: usize = 0;
    while i < parts.len()
        invariant
            i <= parts.len(),
            joined@ == join(texts(parts@).take(i as int), separator@),
        decreases parts.len() - i,
    {
        proof {
            let before = texts(parts@).take(i as int);
            let now = texts(parts@).take(i + 1);
            assert(now.drop_last() =~= before);
            assert(now.last() == parts@[i as int]@);
        }
        if i > 0 {
            joined.append(separator);
        }
        joined.append(parts[i].as_str());
        i += 1;
    }
    proof {
        assert(texts(parts@).take(i as int) =~= texts(parts@));
    }
    joined
}

} // verus!
