//! Ordering of file names: natural order first, byte order on ties.
use core::cmp::Ordering;
use vstd::prelude::*;
use vstd::utf8::encode_utf8;

verus! {

/// What `natord::compare` returns on two strings.
pub uninterp spec fn natural_cmp(a: Seq<char>, b: Seq<char>) -> Ordering;

/// The ordering seen from the other side.
pub open spec fn flipped(o: Ordering) -> Ordering {
    match o {
        Ordering::Less => Ordering::Greater,
        Ordering::Equal => Ordering::Equal,
        Ordering::Greater => Ordering::Less,
    }
}

/// Relies on natord::compare (natural order: digit runs compare by value).
/// Its procedure treats both sides alike, so swapping them flips the result.
#[verifier::external_body]
fn natural_compare(a: &str, b: &str) -> (r: Ordering)
    ensures
        r == natural_cmp(a@, b@),
        flipped(r) == natural_cmp(b@, a@),
{
    natord::compare(a, b)
}

/// Lexicographic order of byte strings from position `i` on.
pub open spec fn byte_order_from(a: Seq<u8>, b: Seq<u8>, i: int) -> Ordering
    decreases a.len() - i,
{
    if i >= a.len() && i >= b.len() {
        Ordering::Equal
    } else if i >= a.len() {
        Ordering::Less
    } else if i >= b.len() {
        Ordering::Greater
    } else if a[i] < b[i] {
        Ordering::Less
    } else if a[i] > b[i] {
        Ordering::Greater
    } else {
        byte_order_from(a, b, i + 1)
    }
}

/// Lexicographic order of byte strings (the order of `str` in std).
pub open spec fn byte_order(a: Seq<u8>, b: Seq<u8>) -> Ordering {
    byte_order_from(a, b, 0)
}

/// The order of file names: natural order, and byte order of the UTF-8
/// encodings where natural order sees no difference.
#[verifier::opaque]
pub open spec fn name_order(a: Seq<char>, b: Seq<char>) -> Ordering {
    if natural_cmp(a, b) != Ordering::Equal {
        natural_cmp(a, b)
    } else {
        byte_order(encode_utf8(a), encode_utf8(b))
    }
}

proof fn lemma_byte_order_from_flips(a: Seq<u8>, b: Seq<u8>, i: int)
    requires
        0 <= i,
    ensures
        byte_order_from(b, a, i) == flipped(byte_order_from(a, b, i)),
    decreases a.len() - i,
{
    if i < a.len() && i < b.len() && a[i] == b[i] {
        lemma_byte_order_from_flips(a, b, i + 1);
    }
}

/// Byte order is antisymmetric.
pub proof fn lemma_byte_order_flips(a: Seq<u8>, b: Seq<u8>)
    ensures
        byte_order(b, a) == flipped(byte_order(a, b)),
{
    lemma_byte_order_from_flips(a, b, 0);
}

/// Compares two byte strings lexicographically.
pub fn compare_bytes(a: &[u8], b: &[u8]) -> (r: Ordering)
    ensures
        r == byte_order(a@, b@),
{
    let mut i: usize = 0;
    while i < a.len() && i < b.len()
        invariant
            i <= a@.len(),
            i <= b@.len(),
            byte_order(a@, b@) == byte_order_from(a@, b@, i as int),
        decreases a@.len() - i,
    {
        if a[i] < b[i] {
            return Ordering::Less;
        } else if a[i] > b[i] {
            return Ordering::Greater;
        }
        i = i + 1;
    }
    if i < a.len() {
        Ordering::Greater
    } else if i < b.len() {
        Ordering::Less
    } else {
        Ordering::Equal
    }
}

/// Compares two file names: natural order, then byte order on ties.
/// The result seen from the other side is flipped.
pub fn compare_names(a: &str, b: &str) -> (r: Ordering)
    ensures
        r == name_order(a@, b@),
        flipped(r) == name_order(b@, a@),
{
    reveal(name_order);
    let n = natural_compare(a, b);
    match n {
        Ordering::Equal => {
            let r = compare_bytes(a.as_bytes(), b.as_bytes());
            proof {
                lemma_byte_order_flips(encode_utf8(a@), encode_utf8(b@));
            }
            r
        },
        _ => n,
    }
}

/// `order` lists each of `0..n` exactly once.
pub open spec fn is_arrangement(order: Seq<usize>, n: nat) -> bool {
    &&& order.len() == n
    &&& forall|k: int| 0 <= k < order.len() ==> order[k] < n
    &&& forall|j: int, k: int| 0 <= j < k < order.len() ==> order[j] != order[k]
    &&& forall|m: usize| m < n ==> order.contains(m)
}

/// The name at place `k` of `order` is not above the name at place `k + 1`.
pub open spec fn steps_up(names: Seq<String>, order: Seq<usize>, k: int) -> bool {
    name_order(names[order[k] as int]@, names[order[k + 1] as int]@) != Ordering::Greater
}

/// The names, taken in the sequence `order`, never step down in name order.
pub open spec fn sorted_by_name(names: Seq<String>, order: Seq<usize>) -> bool {
    forall|k: int| 0 <= k < order.len() - 1 ==> #[trigger] steps_up(names, order, k)
}

/// Where name `i` goes in the sorted arrangement `order`: after every name
/// that is not above it when scanning from the end, before those above it.
fn find_slot(names: &Vec<String>, order: &Vec<usize>, i: usize) -> (j: usize)
    requires
        i < names@.len(),
        forall|k: int| 0 <= k < order@.len() ==> order@[k] < names@.len(),
    ensures
        j <= order@.len(),
        j < order@.len() ==> name_order(names@[i as int]@, names@[order@[j as int] as int]@)
            == Ordering::Less,
        j > 0 ==> name_order(names@[order@[j - 1] as int]@, names@[i as int]@)
            != Ordering::Greater,
{
    let mut j: usize = order.len();
    let mut done = false;
    while !done && j > 0
        invariant
            i < names@.len(),
            j <= order@.len(),
            forall|k: int| 0 <= k < order@.len() ==> order@[k] < names@.len(),
            j < order@.len() ==> name_order(names@[i as int]@, names@[order@[j as int] as int]@)
                == Ordering::Less,
            done ==> j > 0 && name_order(names@[order@[j - 1] as int]@, names@[i as int]@)
                != Ordering::Greater,
        decreases 2 * j + (if done { 0int } else { 1int }),
    {
        let c = compare_names(names[order[j - 1]].as_str(), names[i].as_str());
        match c {
            Ordering::Greater => {
                j = j - 1;
            },
            _ => {
                done = true;
            },
        }
    }
    j
}

proof fn lemma_insert_sorted(names: Seq<String>, prev: Seq<usize>, j: int, i: usize)
    requires
        0 <= j <= prev.len(),
        i < names.len(),
        forall|k: int| 0 <= k < prev.len() ==> prev[k] < names.len(),
        sorted_by_name(names, prev),
        j < prev.len() ==> name_order(names[i as int]@, names[prev[j] as int]@)
            == Ordering::Less,
        j > 0 ==> name_order(names[prev[j - 1] as int]@, names[i as int]@)
            != Ordering::Greater,
    ensures
        sorted_by_name(names, prev.insert(j, i)),
{
    let s = prev.insert(j, i);
    assert forall|k: int| 0 <= k < s.len() - 1 implies #[trigger] steps_up(names, s, k) by {
        if k < j - 1 {
            assert(steps_up(names, prev, k));
            assert(s[k] == prev[k] && s[k + 1] == prev[k + 1]);
        } else if k == j - 1 {
            assert(s[k] == prev[k] && s[k + 1] == i);
        } else if k == j {
            assert(s[k] == i && s[k + 1] == prev[k]);
        } else {
            assert(steps_up(names, prev, k - 1));
            assert(s[k] == prev[k - 1] && s[k + 1] == prev[k]);
        }
    }
}

proof fn lemma_insert_arrangement(prev: Seq<usize>, j: int, i: usize)
    requires
        0 <= j <= prev.len(),
        is_arrangement(prev, i as nat),
    ensures
        is_arrangement(prev.insert(j, i), i as nat + 1),
{
    let s = prev.insert(j, i);
    assert forall|m: usize| m < i + 1 implies s.contains(m) by {
        if m == i {
            assert(s[j] == i);
        } else {
            assert(prev.contains(m));
            let k = choose|k: int| 0 <= k < prev.len() && prev[k] == m;
            if k < j {
                assert(s[k] == m);
            } else {
                assert(s[k + 1] == m);
            }
        }
    }
    assert forall|a: int, b: int| 0 <= a < b < s.len() implies s[a] != s[b] by {
        if a == j {
            assert(s[b] == prev[b - 1]);
        } else if b == j {
            assert(s[a] == prev[a]);
        } else {
            let pa = if a < j { a } else { a - 1 };
            let pb = if b < j { b } else { b - 1 };
            assert(s[a] == prev[pa] && s[b] == prev[pb]);
        }
    }
}

/// Sorts the positions of `names` by name order (insertion sort: stable).
pub fn sort_by_name(names: &Vec<String>) -> (order: Vec<usize>)
    ensures
        is_arrangement(order@, names@.len()),
        sorted_by_name(names@, order@),
{
    let mut order: Vec<usize> = Vec::new();
    let mut i: usize = 0;
    while i < names.len()
        invariant
            i <= names@.len(),
            is_arrangement(order@, i as nat),
            sorted_by_name(names@, order@),
        decreases names@.len() - i,
    {
        let j = find_slot(names, &order, i);
        proof {
            lemma_insert_sorted(names@, order@, j as int, i);
            lemma_insert_arrangement(order@, j as int, i);
        }
        order.insert(j, i);
        i = i + 1;
    }
    order
}

} // verus!
