//! The order of strings by code point, as `str`'s `Ord` compares them, and
//! a sort of positions by string keys.
use vstd::prelude::*;

verus! {

/// `a` comes no later than `b`: lexicographic by code point, a prefix
/// first.
pub open spec fn str_le(a: Seq<char>, b: Seq<char>) -> bool
    decreases a.len(),
{
    if a.len() == 0 {
        true
    } else if b.len() == 0 {
        false
    } else if a[0] != b[0] {
        (a[0] as int) < (b[0] as int)
    } else {
        str_le(a.skip(1), b.skip(1))
    }
}

pub proof fn lemma_str_le_refl(a: Seq<char>)
    ensures
        str_le(a, a),
    decreases a.len(),
{
    if a.len() > 0 {
        lemma_str_le_refl(a.skip(1));
    }
}

pub proof fn lemma_str_le_total(a: Seq<char>, b: Seq<char>)
    ensures
        str_le(a, b) || str_le(b, a),
    decreases a.len(),
{
    if a.len() > 0 && b.len() > 0 && a[0] == b[0] {
        lemma_str_le_total(a.skip(1), b.skip(1));
    }
}

pub proof fn lemma_str_le_antisym(a: Seq<char>, b: Seq<char>)
    requires
        str_le(a, b),
        str_le(b, a),
    ensures
        a == b,
    decreases a.len(),
{
    if a.len() > 0 && b.len() > 0 {
        if a[0] == b[0] {
            lemma_str_le_antisym(a.skip(1), b.skip(1));
            assert(a =~= seq![a[0]] + a.skip(1));
            assert(b =~= seq![b[0]] + b.skip(1));
        }
    } else {
        assert(a =~= b);
    }
}

pub proof fn lemma_str_le_trans(a: Seq<char>, b: Seq<char>, c: Seq<char>)
    requires
        str_le(a, b),
        str_le(b, c),
    ensures
        str_le(a, c),
    decreases a.len(),
{
    if a.len() > 0 && b.len() > 0 && c.len() > 0 {
        if a[0] == b[0] && b[0] == c[0] {
            lemma_str_le_trans(a.skip(1), b.skip(1), c.skip(1));
        }
    }
}

/// A string comes no later than every string it begins.
pub proof fn law_str_le_prefix(a: Seq<char>, b: Seq<char>)
    requires
        a.len() <= b.len(),
        b.take(a.len() as int) == a,
    ensures
        str_le(a, b),
    decreases a.len(),
{
    if a.len() > 0 {
        assert(b[0] == b.take(a.len() as int)[0]);
        assert(b.skip(1).take(a.skip(1).len() as int) =~= a.skip(1)) by {
            assert forall|k: int| 0 <= k < a.len() - 1 implies b.skip(1)[k] == a.skip(1)[k] by {
                assert(b.take(a.len() as int)[k + 1] == b[k + 1]);
            }
        }
        law_str_le_prefix(a.skip(1), b.skip(1));
    }
}

/// Where two strings first differ, the one with the smaller code point
/// comes first, and not the other way round.
pub proof fn law_str_le_first_difference(a: Seq<char>, b: Seq<char>, k: int)
    requires
        0 <= k < a.len(),
        k < b.len(),
        a.take(k) == b.take(k),
        (a[k] as int) < (b[k] as int),
    ensures
        str_le(a, b),
        !str_le(b, a),
    decreases k,
{
    if k > 0 {
        assert(a[0] == a.take(k)[0] && b[0] == b.take(k)[0]);
        assert(a.skip(1).take(k - 1) =~= b.skip(1).take(k - 1)) by {
            assert forall|j: int| 0 <= j < k - 1 implies a.skip(1)[j] == b.skip(1)[j] by {
                assert(a.take(k)[j + 1] == b.take(k)[j + 1]);
                assert(a.take(k)[j + 1] == a[j + 1]);
                assert(b.take(k)[j + 1] == b[j + 1]);
                assert(a.skip(1)[j] == a[j + 1]);
                assert(b.skip(1)[j] == b[j + 1]);
            }
        }
        law_str_le_first_difference(a.skip(1), b.skip(1), k - 1);
    }
}

/// Compares two character sequences by code point.
pub fn str_le_chars(a: &Vec<char>, b: &Vec<char>) -> (r: bool)
    ensures
        r == str_le(a@, b@),
{
    let mut i: usize = 0;
    assert(a@.skip(0) =~= a@);
    assert(b@.skip(0) =~= b@);
    loop
        invariant
            i <= a@.len(),
            i <= b@.len(),
            str_le(a@, b@) == str_le(a@.skip(i as int), b@.skip(i as int)),
        decreases a@.len() - i,
    {
        if i == a.len() {
            return true;
        }
        if i == b.len() {
            return false;
        }
        let x = a[i];
        let y = b[i];
        assert(a@.skip(i as int)[0] == x);
        assert(b@.skip(i as int)[0] == y);
        if x != y {
            return x < y;
        }
        assert(a@.skip(i as int).skip(1) =~= a@.skip(i + 1));
        assert(b@.skip(i as int).skip(1) =~= b@.skip(i + 1));
        i = i + 1;
    }
}

/// `a` may come before `b` in an order by the keys at those positions,
/// ascending or descending.
pub open spec fn key_before(keys: Seq<Seq<char>>, a: usize, b: usize, descending: bool) -> bool {
    if descending {
        str_le(keys[b as int], keys[a as int])
    } else {
        str_le(keys[a as int], keys[b as int])
    }
}

/// The positions in `s` are ordered by their keys.
pub open spec fn sorted_by_keys(keys: Seq<Seq<char>>, s: Seq<usize>, descending: bool) -> bool {
    forall|i: int, j: int| 0 <= i < j < s.len() ==> key_before(keys, s[i], s[j], descending)
}

/// Every position in `s` has a key.
pub open spec fn all_below(s: Seq<usize>, n: nat) -> bool {
    forall|i: int| 0 <= i < s.len() ==> s[i] < n
}

proof fn lemma_key_before_total(keys: Seq<Seq<char>>, a: usize, b: usize, descending: bool)
    ensures
        key_before(keys, a, b, descending) || key_before(keys, b, a, descending),
{
    lemma_str_le_total(keys[a as int], keys[b as int]);
}

proof fn lemma_key_before_trans(
    keys: Seq<Seq<char>>,
    a: usize,
    b: usize,
    c: usize,
    descending: bool,
)
    requires
        key_before(keys, a, b, descending),
        key_before(keys, b, c, descending),
    ensures
        key_before(keys, a, c, descending),
{
    if descending {
        lemma_str_le_trans(keys[c as int], keys[b as int], keys[a as int]);
    } else {
        lemma_str_le_trans(keys[a as int], keys[b as int], keys[c as int]);
    }
}

/// Whether `a` may come before `b` in the order by keys.
fn key_before_exec(keys: &Vec<Vec<char>>, a: usize, b: usize, descending: bool) -> (r: bool)
    requires
        a < keys@.len(),
        b < keys@.len(),
    ensures
        r == key_before(keys@.map_values(|k: Vec<char>| k@), a, b, descending),
{
    if descending {
        str_le_chars(&keys[b], &keys[a])
    } else {
        str_le_chars(&keys[a], &keys[b])
    }
}

/// The positions in `order` arranged by their keys, ascending or
/// descending; positions with equal keys keep their relative order.
pub fn sort_by_keys(keys: &Vec<Vec<char>>, order: &Vec<usize>, descending: bool) -> (r: Vec<usize>)
    requires
        all_below(order@, keys@.len()),
    ensures
        r@.to_multiset() == order@.to_multiset(),
        r@.len() == order@.len(),
        all_below(r@, keys@.len()),
        sorted_by_keys(keys@.map_values(|k: Vec<char>| k@), r@, descending),
{
    broadcast use vstd::seq_lib::group_to_multiset_ensures;

    let ghost ks = keys@.map_values(|k: Vec<char>| k@);
    let mut out: Vec<usize> = Vec::new();
    let mut k: usize = 0;
    while k < order.len()
        invariant
            k <= order@.len(),
            ks == keys@.map_values(|k: Vec<char>| k@),
            all_below(order@, keys@.len()),
            out@.to_multiset() == order@.take(k as int).to_multiset(),
            out@.len() == k,
            all_below(out@, keys@.len()),
            sorted_by_keys(ks, out@, descending),
        decreases order@.len() - k,
    {
        let x = order[k];
        let mut p: usize = 0;
        while p < out.len() && key_before_exec(keys, out[p], x, descending)
            invariant
                p <= out@.len(),
                x < keys@.len(),
                ks == keys@.map_values(|k: Vec<char>| k@),
                all_below(out@, keys@.len()),
                forall|i: int| 0 <= i < p ==> key_before(ks, out@[i], x, descending),
            decreases out@.len() - p,
        {
            p = p + 1;
        }
        let ghost before = out@;
        proof {
            if p < before.len() {
                lemma_key_before_total(ks, before[p as int], x, descending);
            }
        }
        out.insert(p, x);
        proof {
            assert(out@ =~= before.insert(p as int, x));
            assert(order@.take(k + 1) =~= order@.take(k as int).push(x));
            vstd::seq_lib::to_multiset_insert(before, p as int, x);
            vstd::seq_lib::to_multiset_build(order@.take(k as int), x);
            assert forall|i: int, j: int| 0 <= i < j < out@.len() implies key_before(
                ks,
                out@[i],
                out@[j],
                descending,
            ) by {
                if j < p {
                    assert(out@[i] == before[i] && out@[j] == before[j]);
                } else if j == p {
                    assert(out@[i] == before[i]);
                } else if i == p {
                    assert(out@[j] == before[j - 1]);
                    assert(key_before(ks, x, before[p as int], descending));
                    if j - 1 > p {
                        lemma_key_before_trans(ks, x, before[p as int], before[j - 1], descending);
                    }
                } else if i < p {
                    assert(out@[i] == before[i] && out@[j] == before[j - 1]);
                } else {
                    assert(out@[i] == before[i - 1] && out@[j] == before[j - 1]);
                }
            }
        }
        k = k + 1;
    }
    assert(order@.take(order@.len() as int) =~= order@);
    out
}

} // verus!
