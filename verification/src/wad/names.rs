//! Fixed-width lump and texture names: decoding, comparison and ordering.

use vstd::prelude::*;
use vstd::utf8::{decode_utf8, encode_utf8, valid_utf8};

use crate::wad::world::string_views;

verus! {

/// Number of zero bytes at the start of `s`.
pub open spec fn leading_zero_count(s: Seq<u8>) -> nat
    decreases s.len(),
{
    if s.len() == 0 || s[0] != 0 {
        0
    } else {
        1 + leading_zero_count(s.drop_first())
    }
}

/// Number of zero bytes at the end of `s`.
pub open spec fn trailing_zero_count(s: Seq<u8>) -> nat
    decreases s.len(),
{
    if s.len() == 0 || s.last() != 0 {
        0
    } else {
        1 + trailing_zero_count(s.drop_last())
    }
}

/// `s` with its leading and trailing zero bytes removed.
pub open spec fn trim_zero_bytes(s: Seq<u8>) -> Seq<u8> {
    let front = s.subrange(leading_zero_count(s) as int, s.len() as int);
    front.subrange(0, front.len() - trailing_zero_count(front))
}

/// What `String::from_utf8_lossy` yields for the given bytes.
pub uninterp spec fn utf8_lossy(bytes: Seq<u8>) -> Seq<char>;

/// The name stored in the `len` bytes of `chunk` that start at `offset`:
/// padding zero bytes are dropped and the rest is decoded as UTF-8, with
/// invalid sequences replaced.
pub open spec fn spec_read_name(chunk: Seq<u8>, offset: int, len: int) -> Seq<char> {
    let bytes = trim_zero_bytes(chunk.subrange(offset, offset + len));
    if valid_utf8(bytes) {
        decode_utf8(bytes)
    } else {
        utf8_lossy(bytes)
    }
}

/// Decodes bytes with `String::from_utf8_lossy`.  The contract names the
/// result, and states the documented fact that valid UTF-8 is decoded as is.
#[verifier::external_body]
fn decode_lossy(bytes: &[u8]) -> (s: String)
    ensures
        s@ == utf8_lossy(bytes@),
        valid_utf8(bytes@) ==> s@ == decode_utf8(bytes@),
{
    String::from_utf8_lossy(bytes).into_owned()
}

proof fn lemma_leading_zero_count_bound(s: Seq<u8>, i: int)
    requires
        0 <= i <= s.len(),
        forall|k: int| 0 <= k < i ==> s[k] == 0,
    ensures
        leading_zero_count(s) >= i,
        i < s.len() && s[i] != 0 ==> leading_zero_count(s) == i,
    decreases i,
{
    if i > 0 {
        lemma_leading_zero_count_bound(s.drop_first(), i - 1);
    }
}

proof fn lemma_trailing_zero_count_bound(s: Seq<u8>, i: int)
    requires
        0 <= i <= s.len(),
        forall|k: int| s.len() - i <= k < s.len() ==> s[k] == 0,
    ensures
        trailing_zero_count(s) >= i,
        i < s.len() && s[s.len() - 1 - i] != 0 ==> trailing_zero_count(s) == i,
    decreases i,
{
    if i > 0 {
        lemma_trailing_zero_count_bound(s.drop_last(), i - 1);
    }
}

proof fn lemma_all_zero_counts(s: Seq<u8>)
    requires
        forall|k: int| 0 <= k < s.len() ==> s[k] == 0,
    ensures
        leading_zero_count(s) == s.len(),
    decreases s.len(),
{
    if s.len() > 0 {
        lemma_all_zero_counts(s.drop_first());
    }
}

proof fn lemma_leading_zero_count_le(s: Seq<u8>)
    ensures
        leading_zero_count(s) <= s.len(),
    decreases s.len(),
{
    if s.len() > 0 {
        lemma_leading_zero_count_le(s.drop_first());
    }
}

proof fn lemma_trailing_zero_count_le(s: Seq<u8>)
    ensures
        trailing_zero_count(s) <= s.len(),
    decreases s.len(),
{
    if s.len() > 0 {
        lemma_trailing_zero_count_le(s.drop_last());
    }
}

/// Reads the `len`-byte name at `offset` of `chunk`.
pub fn read_name(params: ReadNameParams<'_>) -> (name: String)
    requires
        params.offset + params.len <= params.chunk@.len(),
    ensures
        name@ == spec_read_name(params.chunk@, params.offset as int, params.len as int),
{
    let ReadNameParams { chunk, offset, len } = params;
    let ghost field = chunk@.subrange(offset as int, offset + len);
    let total = chunk.len();
    assert(offset + len <= total);
    let stop = offset + len;
    let mut start: usize = offset;
    while start < stop && chunk[start] == 0
        invariant
            offset <= start <= offset + len,
            stop == offset + len,
            offset + len <= chunk@.len(),
            forall|k: int| offset <= k < start ==> chunk@[k] == 0,
        decreases offset + len - start,
    {
        start = start + 1;
    }
    proof {
        lemma_leading_zero_count_bound(field, start - offset);
        if start == offset + len {
            lemma_all_zero_counts(field);
        }
        lemma_leading_zero_count_le(field);
    }
    let ghost front = field.subrange(leading_zero_count(field) as int, field.len() as int);
    assert(front =~= chunk@.subrange(start as int, offset + len));
    let mut end: usize = stop;
    while end > start && chunk[end - 1] == 0
        invariant
            start <= end <= offset + len,
            offset + len <= chunk@.len(),
            front =~= chunk@.subrange(start as int, offset + len),
            forall|k: int| end <= k < offset + len ==> chunk@[k] == 0,
        decreases end - start,
    {
        end = end - 1;
    }
    proof {
        lemma_trailing_zero_count_bound(front, offset + len - end);
        lemma_trailing_zero_count_le(front);
    }
    let trimmed = &chunk[start..end];
    assert(trimmed@ =~= trim_zero_bytes(field));
    decode_lossy(trimmed)
}

pub struct ReadNameParams<'a> {
    pub chunk: &'a [u8],
    pub offset: usize,
    pub len: usize,
}

/// Compares two strings by their UTF-8 bytes.
pub fn str_eq(a: &str, b: &str) -> (equal: bool)
    ensures
        equal == (a@ == b@),
{
    let ab = a.as_bytes();
    let bb = b.as_bytes();
    proof {
        vstd::utf8::encode_utf8_decode_utf8(a@);
        vstd::utf8::encode_utf8_decode_utf8(b@);
        assert(a@ == b@ ==> ab@ == bb@);
    }
    if ab.len() != bb.len() {
        return false;
    }
    let mut i: usize = 0;
    while i < ab.len()
        invariant
            i <= ab@.len(),
            ab@.len() == bb@.len(),
            a@ == b@ ==> ab@ == bb@,
            forall|k: int| 0 <= k < i ==> ab@[k] == bb@[k],
        decreases ab@.len() - i,
    {
        if ab[i] != bb[i] {
            return false;
        }
        i = i + 1;
    }
    assert(ab@ =~= bb@);
    true
}

/// Lexicographic order on byte strings: the order `str` and `String`
/// compare by.
pub open spec fn bytes_lt(a: Seq<u8>, b: Seq<u8>) -> bool
    decreases a.len(),
{
    if a.len() == 0 {
        b.len() > 0
    } else if b.len() == 0 {
        false
    } else if a[0] != b[0] {
        a[0] < b[0]
    } else {
        bytes_lt(a.drop_first(), b.drop_first())
    }
}

/// Order on names by their UTF-8 bytes.
pub open spec fn name_lt(a: Seq<char>, b: Seq<char>) -> bool {
    bytes_lt(encode_utf8(a), encode_utf8(b))
}

pub proof fn lemma_bytes_lt_irreflexive(a: Seq<u8>)
    ensures
        !bytes_lt(a, a),
    decreases a.len(),
{
    if a.len() > 0 {
        lemma_bytes_lt_irreflexive(a.drop_first());
    }
}

pub proof fn lemma_bytes_lt_transitive(a: Seq<u8>, b: Seq<u8>, c: Seq<u8>)
    requires
        bytes_lt(a, b),
        bytes_lt(b, c),
    ensures
        bytes_lt(a, c),
    decreases a.len(),
{
    if a.len() > 0 && b.len() > 0 && c.len() > 0 && a[0] == b[0] && b[0] == c[0] {
        lemma_bytes_lt_transitive(a.drop_first(), b.drop_first(), c.drop_first());
    }
}

pub proof fn lemma_bytes_lt_total(a: Seq<u8>, b: Seq<u8>)
    ensures
        a != b ==> (bytes_lt(a, b) || bytes_lt(b, a)),
        !(bytes_lt(a, b) && bytes_lt(b, a)),
    decreases a.len(),
{
    if a.len() > 0 && b.len() > 0 && a[0] == b[0] {
        lemma_bytes_lt_total(a.drop_first(), b.drop_first());
        if a.drop_first() == b.drop_first() {
            assert(a =~= seq![a[0]] + a.drop_first());
            assert(b =~= seq![b[0]] + b.drop_first());
        }
    } else if a.len() == 0 && b.len() == 0 {
        assert(a =~= b);
    }
}

/// `name_lt` is a strict total order on names.
pub proof fn lemma_name_lt_order(a: Seq<char>, b: Seq<char>, c: Seq<char>)
    ensures
        !name_lt(a, a),
        name_lt(a, b) && name_lt(b, c) ==> name_lt(a, c),
        a != b ==> (name_lt(a, b) || name_lt(b, a)),
        !(name_lt(a, b) && name_lt(b, a)),
{
    lemma_bytes_lt_irreflexive(encode_utf8(a));
    if name_lt(a, b) && name_lt(b, c) {
        lemma_bytes_lt_transitive(encode_utf8(a), encode_utf8(b), encode_utf8(c));
    }
    lemma_bytes_lt_total(encode_utf8(a), encode_utf8(b));
    vstd::utf8::encode_utf8_decode_utf8(a);
    vstd::utf8::encode_utf8_decode_utf8(b);
}

/// Compares two byte strings lexicographically.
pub fn bytes_less(a: &[u8], b: &[u8]) -> (less: bool)
    ensures
        less == bytes_lt(a@, b@),
{
    let mut i: usize = 0;
    assert(a@.skip(0) =~= a@);
    assert(b@.skip(0) =~= b@);
    while i < a.len() && i < b.len() && a[i] == b[i]
        invariant
            i <= a@.len(),
            i <= b@.len(),
            forall|k: int| 0 <= k < i ==> a@[k] == b@[k],
            bytes_lt(a@, b@) == bytes_lt(a@.skip(i as int), b@.skip(i as int)),
        decreases a@.len() - i,
    {
        proof {
            let sa = a@.skip(i as int);
            let sb = b@.skip(i as int);
            assert(sa.drop_first() =~= a@.skip(i + 1));
            assert(sb.drop_first() =~= b@.skip(i + 1));
        }
        i = i + 1;
    }
    if i == a.len() {
        i < b.len()
    } else if i == b.len() {
        false
    } else {
        a[i] < b[i]
    }
}

/// Compares two names by their UTF-8 bytes, as `str`'s `<` does.
pub fn name_less(a: &str, b: &str) -> (less: bool)
    ensures
        less == name_lt(a@, b@),
{
    bytes_less(a.as_bytes(), b.as_bytes())
}

/// Every name of `s` is before the next one.
pub open spec fn strictly_increasing(s: Seq<Seq<char>>) -> bool {
    forall|i: int, j: int| 0 <= i < j < s.len() ==> name_lt(s[i], s[j])
}

/// Two increasing listings of the same set of names are equal.
pub proof fn lemma_increasing_listing_unique(s: Seq<Seq<char>>, t: Seq<Seq<char>>)
    requires
        strictly_increasing(s),
        strictly_increasing(t),
        s.to_set() == t.to_set(),
    ensures
        s == t,
    decreases s.len(),
{
    if s.len() == 0 {
        if t.len() > 0 {
            assert(t.to_set().contains(t[0]));
        }
        assert(s =~= t);
    } else if t.len() == 0 {
        assert(s.to_set().contains(s[0]));
    } else {
        assert(s.to_set().contains(t[0]));
        assert(t.to_set().contains(s[0]));
        let i = choose|i: int| 0 <= i < s.len() && s[i] == t[0];
        let j = choose|j: int| 0 <= j < t.len() && t[j] == s[0];
        lemma_name_lt_order(s[0], t[0], s[0]);
        if i > 0 {
            lemma_name_lt_order(s[0], s[i], s[0]);
            if j > 0 {
                lemma_name_lt_order(t[0], t[j], s[0]);
                lemma_name_lt_order(s[0], t[0], s[0]);
            }
        }
        assert(s[0] == t[0]) by {
            if s[0] != t[0] {
                lemma_name_lt_order(s[0], t[0], s[0]);
                if name_lt(s[0], t[0]) {
                    assert(j > 0);
                    lemma_name_lt_order(t[0], t[j], t[0]);
                    lemma_name_lt_order(s[0], t[0], s[0]);
                    lemma_name_lt_order(t[0], s[0], t[0]);
                } else {
                    assert(i > 0);
                    lemma_name_lt_order(t[0], s[0], t[0]);
                }
            }
        }
        let s1 = s.drop_first();
        let t1 = t.drop_first();
        assert forall|x: Seq<char>| s1.to_set().contains(x) implies t1.to_set().contains(x) by {
            let k = choose|k: int| 0 <= k < s1.len() && s1[k] == x;
            assert(s.to_set().contains(x));
            let m = choose|m: int| 0 <= m < t.len() && t[m] == x;
            lemma_name_lt_order(s[0], x, s[0]);
            assert(s[k + 1] == x);
            if m == 0 {
                assert(name_lt(s[0], s[k + 1]));
            } else {
                assert(t1[m - 1] == x);
            }
        }
        assert forall|x: Seq<char>| t1.to_set().contains(x) implies s1.to_set().contains(x) by {
            let k = choose|k: int| 0 <= k < t1.len() && t1[k] == x;
            assert(t.to_set().contains(x));
            let m = choose|m: int| 0 <= m < s.len() && s[m] == x;
            lemma_name_lt_order(t[0], x, t[0]);
            assert(t[k + 1] == x);
            if m == 0 {
                assert(name_lt(t[0], t[k + 1]));
            } else {
                assert(s1[m - 1] == x);
            }
        }
        assert(s1.to_set() =~= t1.to_set());
        lemma_increasing_listing_unique(s1, t1);
        assert(s =~= seq![s[0]] + s1);
        assert(t =~= seq![t[0]] + t1);
    }
}

/// A strictly increasing list of names with `x` added, unless it is there
/// already.
pub proof fn lemma_sorted_insert(s: Seq<Seq<char>>, x: Seq<char>) -> (t: Seq<Seq<char>>)
    requires
        strictly_increasing(s),
    ensures
        strictly_increasing(t),
        t.to_set() == s.to_set().insert(x),
    decreases s.len(),
{
    if s.len() == 0 {
        let t = seq![x];
        assert(t.to_set() =~= s.to_set().insert(x)) by {
            assert(t[0] == x);
        }
        t
    } else if s[0] == x {
        assert(s.to_set() =~= s.to_set().insert(x)) by {
            assert(s.to_set().contains(s[0]));
        }
        s
    } else if name_lt(x, s[0]) {
        let t = seq![x] + s;
        assert forall|i: int, j: int| 0 <= i < j < t.len() implies name_lt(t[i], t[j]) by {
            if i == 0 {
                if j > 1 {
                    lemma_name_lt_order(x, s[0], s[j - 1]);
                }
            } else {
                assert(t[i] == s[i - 1] && t[j] == s[j - 1]);
            }
        }
        assert(t.to_set() =~= s.to_set().insert(x)) by {
            assert forall|y: Seq<char>| t.to_set().contains(y) implies s.to_set().insert(x).contains(
                y,
            ) by {
                let k = choose|k: int| 0 <= k < t.len() && t[k] == y;
                if k > 0 {
                    assert(s[k - 1] == y);
                }
            }
            assert forall|y: Seq<char>| s.to_set().insert(x).contains(y) implies t.to_set().contains(
                y,
            ) by {
                if y == x {
                    assert(t[0] == y);
                } else {
                    let k = choose|k: int| 0 <= k < s.len() && s[k] == y;
                    assert(t[k + 1] == y);
                }
            }
        }
        t
    } else {
        let head = s[0];
        let tail = s.drop_first();
        lemma_name_lt_order(head, x, head);
        assert(strictly_increasing(tail)) by {
            assert forall|i: int, j: int| 0 <= i < j < tail.len() implies name_lt(tail[i], tail[j]) by {
                assert(tail[i] == s[i + 1] && tail[j] == s[j + 1]);
            }
        }
        let rest = lemma_sorted_insert(tail, x);
        let t = seq![head] + rest;
        assert forall|y: Seq<char>| rest.to_set().contains(y) implies name_lt(head, y) by {
            assert(tail.to_set().insert(x).contains(y));
            if y != x {
                let k = choose|k: int| 0 <= k < tail.len() && tail[k] == y;
                assert(s[k + 1] == y);
            }
        }
        assert forall|i: int, j: int| 0 <= i < j < t.len() implies name_lt(t[i], t[j]) by {
            if i == 0 {
                assert(t[j] == rest[j - 1]);
                assert(rest.to_set().contains(rest[j - 1]));
            } else {
                assert(t[i] == rest[i - 1] && t[j] == rest[j - 1]);
            }
        }
        assert(t.to_set() =~= s.to_set().insert(x)) by {
            assert forall|y: Seq<char>| t.to_set().contains(y) implies s.to_set().insert(x).contains(
                y,
            ) by {
                let k = choose|k: int| 0 <= k < t.len() && t[k] == y;
                if k == 0 {
                    assert(s[0] == y);
                } else {
                    assert(rest[k - 1] == y);
                    assert(rest.to_set().contains(y));
                    if y != x {
                        let m = choose|m: int| 0 <= m < tail.len() && tail[m] == y;
                        assert(s[m + 1] == y);
                    }
                }
            }
            assert forall|y: Seq<char>| s.to_set().insert(x).contains(y) implies t.to_set().contains(
                y,
            ) by {
                if y == head {
                    assert(t[0] == y);
                } else {
                    if y != x {
                        let k = choose|k: int| 0 <= k < s.len() && s[k] == y;
                        assert(k > 0);
                        assert(tail[k - 1] == y);
                    }
                    assert(tail.to_set().insert(x).contains(y));
                    assert(rest.to_set().contains(y));
                    let m = choose|m: int| 0 <= m < rest.len() && rest[m] == y;
                    assert(t[m + 1] == y);
                }
            }
        }
        t
    }
}

/// Inserts `name` into a strictly increasing list of names unless it is
/// already there.
pub fn insert_sorted_unique(list: &mut Vec<String>, name: String)
    requires
        strictly_increasing(string_views(old(list)@)),
    ensures
        strictly_increasing(string_views(final(list)@)),
        string_views(final(list)@).to_set() == string_views(old(list)@).to_set().insert(name@),
{
    let ghost before = string_views(list@);
    let mut index: usize = 0;
    while index < list.len() && name_less(list[index].as_str(), name.as_str())
        invariant
            index <= list@.len(),
            before == string_views(list@),
            strictly_increasing(before),
            forall|k: int| 0 <= k < index ==> name_lt(before[k], name@),
        decreases list@.len() - index,
    {
        index = index + 1;
    }
    if index < list.len() && str_eq(list[index].as_str(), name.as_str()) {
        assert(before.to_set().insert(name@) =~= before.to_set()) by {
            assert(before[index as int] == name@);
        }
        return;
    }
    proof {
        if index < list@.len() {
            lemma_name_lt_order(before[index as int], name@, before[index as int]);
        }
    }
    list.insert(index, name);
    let ghost after = string_views(list@);
    assert(after =~= before.insert(index as int, name@));
    assert forall|i: int, j: int| 0 <= i < j < after.len() implies name_lt(after[i], after[j]) by {
        if j < index {
        } else if j == index {
        } else if i < index {
            lemma_name_lt_order(after[i], name@, after[j]);
            if j > index + 1 {
                lemma_name_lt_order(name@, before[index as int], before[j - 1]);
            }
        } else if i == index {
            if j > index + 1 {
                lemma_name_lt_order(name@, before[index as int], before[j - 1]);
            }
        } else {
        }
    }
    assert(after.to_set() =~= before.to_set().insert(name@)) by {
        assert forall|x: Seq<char>| after.to_set().contains(x) implies before.to_set().insert(
            name@,
        ).contains(x) by {
            let k = choose|k: int| 0 <= k < after.len() && after[k] == x;
            if k < index {
                assert(before[k] == x);
            } else if k > index {
                assert(before[k - 1] == x);
            }
        }
        assert forall|x: Seq<char>| before.to_set().insert(name@).contains(x) implies after.to_set().contains(
            x,
        ) by {
            if x == name@ {
                assert(after[index as int] == x);
            } else {
                let k = choose|k: int| 0 <= k < before.len() && before[k] == x;
                if k < index {
                    assert(after[k] == x);
                } else {
                    assert(after[k + 1] == x);
                }
            }
        }
    }
}

} // verus!
