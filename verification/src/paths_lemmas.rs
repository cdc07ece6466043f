//! Facts about the path model that the path builders of the site rely on.
use vstd::prelude::*;

use crate::paths::{
    ext_dot, extension_of, file_name_of, is_cur_dir, is_normal_name, join_of,
    last_comp, lemma_last_index_of, lemma_seg_start, seg_start, stem_of, with_extension_of,
};

verus! {

/// The segment that ends at `e` starts right after the separator at `b - 1`
/// when no separator stands between `b` and `e`.
pub proof fn lemma_seg_start_after_sep(p: Seq<char>, b: int, e: int)
    requires
        0 <= b <= e <= p.len(),
        b == 0 || p[b - 1] == '/',
        forall|k: int| b <= k < e ==> p[k] != '/',
    ensures
        seg_start(p, e) == b,
    decreases e - b,
{
    if e > b {
        lemma_seg_start_after_sep(p, b, e - 1);
    }
}

/// What `last_comp` finds is a non-empty piece without separators that is
/// not `.`, and begins where its segment begins.
pub proof fn lemma_last_comp(p: Seq<char>, e: int)
    requires
        0 <= e <= p.len(),
    ensures
        last_comp(p, e) matches Some((s, f)) ==> {
            &&& 0 <= s < f <= e
            &&& s == seg_start(p, f)
            &&& forall|k: int| s <= k < f ==> p[k] != '/'
            &&& !is_cur_dir(p.subrange(s, f))
            &&& (s == 0 || p[s - 1] == '/')
        },
    decreases e,
{
    if e > 0 {
        if p[e - 1] == '/' {
            lemma_last_comp(p, e - 1);
        } else {
            lemma_seg_start(p, e);
            let s = seg_start(p, e);
            if is_cur_dir(p.subrange(s, e)) {
                lemma_last_comp(p, s);
            }
        }
    }
}

/// A file name is a normal name.
pub proof fn lemma_file_name_normal(p: Seq<char>)
    ensures
        file_name_of(p) matches Some(n) ==> is_normal_name(n),
{
    lemma_last_comp(p, p.len() as int);
    if let Some((s, e)) = last_comp(p, p.len() as int) {
        let n = p.subrange(s, e);
        assert forall|k: int| 0 <= k < n.len() implies n[k] != '/' by {
            assert(n[k] == p[s + k]);
        }
    }
}

/// A normal name put after a directory prefix is the last component.
pub proof fn lemma_last_comp_of_dir_and_name(q: Seq<char>, n: Seq<char>)
    requires
        q.len() == 0 || q.last() == '/',
        is_normal_name(n),
    ensures
        last_comp(q + n, (q + n).len() as int) == Some((q.len() as int, (q + n).len() as int)),
        (q + n).subrange(q.len() as int, (q + n).len() as int) == n,
{
    let p = q + n;
    let e = p.len() as int;
    assert forall|k: int| q.len() <= k < e implies p[k] != '/' by {
        assert(p[k] == n[k - q.len()]);
    }
    lemma_seg_start_after_sep(p, q.len() as int, e);
    assert(p.subrange(q.len() as int, e) =~= n);
    assert(p[e - 1] == n[n.len() - 1]);
}

/// The file name of a directory prefix followed by a normal name is that
/// name.
pub proof fn lemma_file_name_of_dir_and_name(q: Seq<char>, n: Seq<char>)
    requires
        q.len() == 0 || q.last() == '/',
        is_normal_name(n),
    ensures
        file_name_of(q + n) == Some(n),
{
    lemma_last_comp_of_dir_and_name(q, n);
}

/// Replacing the extension of a directory prefix followed by a normal name.
pub proof fn lemma_with_extension_of_dir_and_name(q: Seq<char>, n: Seq<char>, x: Seq<char>)
    requires
        q.len() == 0 || q.last() == '/',
        is_normal_name(n),
    ensures
        with_extension_of(q + n, x) == q + stem_of(n) + if x.len() == 0 {
            Seq::<char>::empty()
        } else {
            seq!['.'] + x
        },
{
    lemma_last_comp_of_dir_and_name(q, n);
    assert((q + n).take(q.len() as int) =~= q);
}

/// A name is its stem, a dot and its extension.
pub proof fn lemma_stem_dot_extension(n: Seq<char>)
    requires
        extension_of(n) is Some,
    ensures
        n == stem_of(n) + seq!['.'] + extension_of(n)->0,
{
    lemma_last_index_of(n, '.', n.len() as int);
    let i = ext_dot(n);
    assert(n =~= n.take(i) + seq!['.'] + n.skip(i + 1));
}

/// Joining a relative name to a directory that ends in a separator is
/// concatenation.
pub proof fn lemma_join_dir(base: Seq<char>, rel: Seq<char>)
    requires
        base.len() > 0 && base.last() == '/',
        rel.len() == 0 || rel[0] != '/',
    ensures
        join_of(base, rel) == base + rel,
{
}

/// Joining a relative name to a directory without a trailing separator puts
/// one in between.
pub proof fn lemma_join_plain(base: Seq<char>, rel: Seq<char>)
    requires
        base.len() > 0 && base.last() != '/',
        rel.len() == 0 || rel[0] != '/',
    ensures
        join_of(base, rel) == base + seq!['/'] + rel,
{
}

} // verus!
