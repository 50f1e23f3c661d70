//! Names as text: trimming, lower-casing and the byte order of strings.
//!
//! Exclusion entries are executable file names.  They are kept trimmed,
//! lower-cased, without empty entries, and in the order of `String`'s own
//! comparison, which is the lexicographic order of the UTF-8 bytes.

use vstd::prelude::*;
use vstd::utf8::{encode_utf8, encode_utf8_decode_utf8};

verus! {

/// The Unicode property White_Space, which `str::trim` strips.
pub open spec fn is_white_space(c: char) -> bool {
    let v = c as u32;
    ||| 0x09 <= v <= 0x0D
    ||| v == 0x20
    ||| v == 0x85
    ||| v == 0xA0
    ||| v == 0x1680
    ||| 0x2000 <= v <= 0x200A
    ||| v == 0x2028
    ||| v == 0x2029
    ||| v == 0x202F
    ||| v == 0x205F
    ||| v == 0x3000
}

/// `s` without its leading white space.
pub open spec fn trim_start_spec(s: Seq<char>) -> Seq<char>
    decreases s.len(),
{
    if s.len() > 0 && is_white_space(s[0]) {
        trim_start_spec(s.drop_first())
    } else {
        s
    }
}

/// `s` without its trailing white space.
pub open spec fn trim_end_spec(s: Seq<char>) -> Seq<char>
    decreases s.len(),
{
    if s.len() > 0 && is_white_space(s.last()) {
        trim_end_spec(s.drop_last())
    } else {
        s
    }
}

/// `s` without leading and trailing white space.
pub open spec fn trim_spec(s: Seq<char>) -> Seq<char> {
    trim_end_spec(trim_start_spec(s))
}

/// `str::trim`: the string without leading and trailing characters of the
/// Unicode property White_Space.
#[verifier::external_body]
pub(crate) fn trim_str(s: &str) -> (r: &str)
    ensures
        r@ == trim_spec(s@),
{
    s.trim()
}

/// What `str::to_lowercase` returns: the Unicode lowercase mapping of the
/// whole string (full mappings, context-dependent final sigma).
pub uninterp spec fn lowercase_of(s: Seq<char>) -> Seq<char>;

/// `str::to_lowercase`.  Its result is named, not stated: the Unicode
/// mapping tables take pages.
#[verifier::external_body]
pub(crate) fn to_lowercase_str(s: &str) -> (r: String)
    ensures
        r@ == lowercase_of(s@),
{
    s.to_lowercase()
}

/// The canonical form of an exclusion entry: trimmed, then lower-cased.
pub open spec fn canonical_name(s: Seq<char>) -> Seq<char> {
    lowercase_of(trim_spec(s))
}

/// Lexicographic order of byte strings (a proper prefix comes first).
pub open spec fn bytes_lt(a: Seq<u8>, b: Seq<u8>) -> bool
    decreases a.len(),
{
    if a.len() == 0 {
        b.len() > 0
    } else if b.len() == 0 {
        false
    } else if a[0] != b[0] {
        a[0] < b[0]
    } else {
        bytes_lt(a.drop_first(), b.drop_first())
    }
}

/// The order of `String`: lexicographic on the UTF-8 encoding.
pub open spec fn name_lt(a: Seq<char>, b: Seq<char>) -> bool {
    bytes_lt(encode_utf8(a), encode_utf8(b))
}

pub proof fn lemma_bytes_lt_irreflexive(a: Seq<u8>)
    ensures
        !bytes_lt(a, a),
    decreases a.len(),
{
    if a.len() > 0 {
        lemma_bytes_lt_irreflexive(a.drop_first());
    }
}

pub proof fn lemma_bytes_lt_transitive(a: Seq<u8>, b: Seq<u8>, c: Seq<u8>)
    requires
        bytes_lt(a, b),
        bytes_lt(b, c),
    ensures
        bytes_lt(a, c),
    decreases a.len(),
{
    if a.len() > 0 && b.len() > 0 && c.len() > 0 && a[0] == b[0] && b[0] == c[0] {
        lemma_bytes_lt_transitive(a.drop_first(), b.drop_first(), c.drop_first());
    }
}

pub proof fn lemma_bytes_lt_total(a: Seq<u8>, b: Seq<u8>)
    requires
        a != b,
    ensures
        bytes_lt(a, b) || bytes_lt(b, a),
    decreases a.len(),
{
    if a.len() > 0 && b.len() > 0 && a[0] == b[0] {
        if a.drop_first() == b.drop_first() {
            assert(a =~= seq![a[0]] + a.drop_first());
            assert(b =~= seq![b[0]] + b.drop_first());
        }
        lemma_bytes_lt_total(a.drop_first(), b.drop_first());
    } else if a.len() == 0 && b.len() == 0 {
        assert(a =~= b);
    }
}

pub proof fn lemma_bytes_lt_asymmetric(a: Seq<u8>, b: Seq<u8>)
    requires
        bytes_lt(a, b),
    ensures
        !bytes_lt(b, a),
{
    if bytes_lt(b, a) {
        lemma_bytes_lt_transitive(a, b, a);
        lemma_bytes_lt_irreflexive(a);
    }
}

/// The order of names is a strict total order.
pub proof fn lemma_name_lt_order(a: Seq<char>, b: Seq<char>, c: Seq<char>)
    ensures
        !name_lt(a, a),
        name_lt(a, b) && name_lt(b, c) ==> name_lt(a, c),
        a != b ==> name_lt(a, b) || name_lt(b, a),
        name_lt(a, b) ==> !name_lt(b, a),
{
    lemma_bytes_lt_irreflexive(encode_utf8(a));
    if name_lt(a, b) && name_lt(b, c) {
        lemma_bytes_lt_transitive(encode_utf8(a), encode_utf8(b), encode_utf8(c));
    }
    if a != b {
        encode_utf8_decode_utf8(a);
        encode_utf8_decode_utf8(b);
        lemma_bytes_lt_total(encode_utf8(a), encode_utf8(b));
    }
    if name_lt(a, b) {
        lemma_bytes_lt_asymmetric(encode_utf8(a), encode_utf8(b));
    }
}

/// Whether `a` comes before `b` in the byte order.
pub fn bytes_less(a: &[u8], b: &[u8]) -> (r: bool)
    ensures
        r == bytes_lt(a@, b@),
{
    let mut i: usize = 0;
    assert(a@.subrange(0, a@.len() as int) =~= a@);
    assert(b@.subrange(0, b@.len() as int) =~= b@);
    while i < a.len() && i < b.len() && a[i] == b[i]
        invariant
            i <= a.len(),
            i <= b.len(),
            bytes_lt(a@, b@) == bytes_lt(a@.subrange(i as int, a@.len() as int), b@.subrange(i as int, b@.len() as int)),
        decreases a.len() - i,
    {
        proof {
            let sa = a@.subrange(i as int, a@.len() as int);
            let sb = b@.subrange(i as int, b@.len() as int);
            assert(sa.drop_first() =~= a@.subrange(i as int + 1, a@.len() as int));
            assert(sb.drop_first() =~= b@.subrange(i as int + 1, b@.len() as int));
        }
        i = i + 1;
    }
    if i == a.len() {
        i < b.len()
    } else if i == b.len() {
        false
    } else {
        a[i] < b[i]
    }
}

/// Whether the name `a` comes before the name `b`.
pub fn name_less(a: &str, b: &str) -> (r: bool)
    ensures
        r == name_lt(a@, b@),
{
    bytes_less(a.as_bytes(), b.as_bytes())
}

/// Each name comes strictly before the next: sorted and without duplicates.
pub open spec fn strictly_sorted(v: Seq<Seq<char>>) -> bool {
    forall|i: int, j: int| 0 <= i < j < v.len() ==> name_lt(#[trigger] v[i], #[trigger] v[j])
}

/// The views of a list of strings.
pub open spec fn string_views(v: Seq<String>) -> Seq<Seq<char>> {
    v.map_values(|s: String| s@)
}

/// Inserts `name` into a strictly sorted list unless it is already there.
pub fn insert_sorted(list: &mut Vec<String>, name: String)
    requires
        strictly_sorted(string_views(old(list)@)),
    ensures
        strictly_sorted(string_views(final(list)@)),
        string_views(final(list)@).to_set() == string_views(old(list)@).to_set().insert(name@),
{
    let ghost old_v = string_views(list@);
    let mut i: usize = 0;
    while i < list.len() && name_less(list[i].as_str(), name.as_str())
        invariant
            old_v == string_views(list@),
            strictly_sorted(old_v),
            i <= list@.len(),
            forall|k: int| 0 <= k < i ==> name_lt(#[trigger] old_v[k], name@),
        decreases list.len() - i,
    {
        i = i + 1;
    }
    if i < list.len() && list[i] == name {
        proof {
            assert(old_v.to_set().insert(name@) =~= old_v.to_set()) by {
                assert(old_v[i as int] == name@);
            }
        }
        return;
    }
    proof {
        if i < list@.len() {
            lemma_name_lt_order(old_v[i as int], name@, name@);
        }
    }
    list.insert(i, name);
    proof {
        let new_v = string_views(list@);
        assert(new_v =~= old_v.insert(i as int, name@));
        assert forall|p: int, q: int| 0 <= p < q < new_v.len() implies name_lt(
            #[trigger] new_v[p],
            #[trigger] new_v[q],
        ) by {
            if q < i {
            } else if p < i && q == i {
            } else if p < i && q > i {
                lemma_name_lt_order(new_v[p], name@, new_v[q]);
                assert(new_v[q] == old_v[q - 1]);
                if q - 1 > i {
                    lemma_name_lt_order(name@, old_v[i as int], old_v[q - 1]);
                }
            } else if p == i {
                assert(new_v[q] == old_v[q - 1]);
                if q - 1 > i {
                    lemma_name_lt_order(name@, old_v[i as int], old_v[q - 1]);
                }
            } else {
                assert(new_v[p] == old_v[p - 1]);
                assert(new_v[q] == old_v[q - 1]);
            }
        }
        assert(new_v.to_set() =~= old_v.to_set().insert(name@)) by {
            assert forall|x: Seq<char>| new_v.to_set().contains(x) implies old_v.to_set().insert(
                name@,
            ).contains(x) by {
                let k = choose|k: int| 0 <= k < new_v.len() && new_v[k] == x;
                if k < i {
                    assert(old_v[k] == x);
                } else if k > i {
                    assert(old_v[k - 1] == x);
                }
            }
            assert forall|x: Seq<char>| old_v.to_set().insert(name@).contains(x) implies new_v.to_set().contains(x) by {
                if x == name@ {
                    assert(new_v[i as int] == x);
                } else {
                    let k = choose|k: int| 0 <= k < old_v.len() && old_v[k] == x;
                    if k < i {
                        assert(new_v[k] == x);
                    } else {
                        assert(new_v[k + 1] == x);
                    }
                }
            }
        }
    }
}

} // verus!
