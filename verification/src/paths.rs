//! A model of the slash-separated relative paths the site pipeline works
//! with: the last component, the stem and extension of a file name,
//! replacing an extension, joining, and splitting into components.
use vstd::prelude::*;

use crate::text::{chars_of, slice_of, string_of};

verus! {

/// Start of the segment that ends at `e`: the position after the last
/// separator before `e`, or 0.
pub open spec fn seg_start(p: Seq<char>, e: int) -> int
    decreases e,
{
    if e <= 0 {
        0
    } else if p[e - 1] == '/' {
        e
    } else {
        seg_start(p, e - 1)
    }
}

pub proof fn lemma_seg_start(p: Seq<char>, e: int)
    requires
        0 <= e <= p.len(),
    ensures
        0 <= seg_start(p, e) <= e,
        e > 0 && p[e - 1] != '/' ==> seg_start(p, e) < e,
        forall|k: int| seg_start(p, e) <= k < e ==> p[k] != '/',
        seg_start(p, e) > 0 ==> p[seg_start(p, e) - 1] == '/',
    decreases e,
{
    if e > 0 && p[e - 1] != '/' {
        lemma_seg_start(p, e - 1);
    }
}

pub open spec fn is_cur_dir(s: Seq<char>) -> bool {
    s == seq!['.']
}

pub open spec fn is_parent_dir(s: Seq<char>) -> bool {
    s == seq!['.', '.']
}

/// Bounds of the last component of `p.take(e)` that is neither empty nor
/// the current directory `.`.
pub open spec fn last_comp(p: Seq<char>, e: int) -> Option<(int, int)>
    decreases e,
{
    if e <= 0 || e > p.len() {
        None
    } else if p[e - 1] == '/' {
        last_comp(p, e - 1)
    } else {
        let s = seg_start(p, e);
        if 0 <= s < e && is_cur_dir(p.subrange(s, e)) {
            last_comp(p, s)
        } else {
            Some((s, e))
        }
    }
}

/// The file name of a path: its last component, unless that is `..`, the
/// root, or the current directory.
pub open spec fn file_name_of(p: Seq<char>) -> Option<Seq<char>> {
    match last_comp(p, p.len() as int) {
        Some((s, e)) => if is_parent_dir(p.subrange(s, e)) {
            None
        } else {
            Some(p.subrange(s, e))
        },
        None => None,
    }
}

/// Position of the last occurrence of `c` in `s.take(e)`, or -1.
pub open spec fn last_index_of(s: Seq<char>, c: char, e: int) -> int
    decreases e,
{
    if e <= 0 {
        -1
    } else if s[e - 1] == c {
        e - 1
    } else {
        last_index_of(s, c, e - 1)
    }
}

pub proof fn lemma_last_index_of(s: Seq<char>, c: char, e: int)
    requires
        0 <= e <= s.len(),
    ensures
        -1 <= last_index_of(s, c, e) < e,
        last_index_of(s, c, e) >= 0 ==> s[last_index_of(s, c, e)] == c,
        forall|k: int| last_index_of(s, c, e) < k < e ==> s[k] != c,
    decreases e,
{
    if e > 0 && s[e - 1] != c {
        lemma_last_index_of(s, c, e - 1);
    }
}

/// Position of the dot that starts the extension of a file name, or -1
/// when it has none (no dot, or only a leading one).
pub open spec fn ext_dot(name: Seq<char>) -> int {
    let i = last_index_of(name, '.', name.len() as int);
    if i > 0 {
        i
    } else {
        -1
    }
}

/// The stem of a file name: the name without its extension.
pub open spec fn stem_of(name: Seq<char>) -> Seq<char> {
    if ext_dot(name) > 0 {
        name.take(ext_dot(name))
    } else {
        name
    }
}

/// The extension of a file name, without its dot.
pub open spec fn extension_of(name: Seq<char>) -> Option<Seq<char>> {
    if ext_dot(name) > 0 {
        Some(name.skip(ext_dot(name) + 1))
    } else {
        None
    }
}

/// The extension of the file name of a path.
pub open spec fn path_extension_of(p: Seq<char>) -> Option<Seq<char>> {
    match file_name_of(p) {
        Some(n) => extension_of(n),
        None => None,
    }
}

/// `p` with the extension of its file name replaced by `ext` (removed when
/// `ext` is empty); everything after the stem is dropped. A path without a
/// file name is left as it is.
pub open spec fn with_extension_of(p: Seq<char>, ext: Seq<char>) -> Seq<char> {
    match last_comp(p, p.len() as int) {
        Some((s, e)) => if is_parent_dir(p.subrange(s, e)) {
            p
        } else {
            p.take(s) + stem_of(p.subrange(s, e)) + if ext.len() == 0 {
                Seq::<char>::empty()
            } else {
                seq!['.'] + ext
            }
        },
        None => p,
    }
}

/// `rel` appended to `base` with one separator; an absolute `rel` replaces
/// `base`.
pub open spec fn join_of(base: Seq<char>, rel: Seq<char>) -> Seq<char> {
    if rel.len() > 0 && rel[0] == '/' {
        rel
    } else if base.len() == 0 || base.last() == '/' {
        base + rel
    } else {
        base + seq!['/'] + rel
    }
}

/// A normal file name: not empty, no separator, not `.` or `..`.
pub open spec fn is_normal_name(n: Seq<char>) -> bool {
    &&& n.len() > 0
    &&& forall|k: int| 0 <= k < n.len() ==> n[k] != '/'
    &&& !is_cur_dir(n)
    &&& !is_parent_dir(n)
}

/// Splitting a path on separators, as the pieces seen so far and the piece
/// in progress.
pub open spec fn split_state(q: Seq<char>) -> (Seq<Seq<char>>, Seq<char>)
    decreases q.len(),
{
    if q.len() == 0 {
        (Seq::empty(), Seq::empty())
    } else {
        let (acc, cur) = split_state(q.drop_last());
        if q.last() == '/' {
            (flush(acc, cur), Seq::empty())
        } else {
            (acc, cur.push(q.last()))
        }
    }
}

/// Keeps a finished piece unless it is empty or `.`.
pub open spec fn flush(acc: Seq<Seq<char>>, cur: Seq<char>) -> Seq<Seq<char>> {
    if cur.len() == 0 || is_cur_dir(cur) {
        acc
    } else {
        acc.push(cur)
    }
}

/// The non-empty pieces of `q` between separators, without `.` pieces.
pub open spec fn segments_of(q: Seq<char>) -> Seq<Seq<char>> {
    flush(split_state(q).0, split_state(q).1)
}

/// The components of a path: a root `/` or a leading `.` when present, then
/// the pieces between separators other than `.`.
pub open spec fn components_of(p: Seq<char>) -> Seq<Seq<char>> {
    if p.len() > 0 && p[0] == '/' {
        seq![seq!['/']] + segments_of(p.skip(1))
    } else if p.len() > 0 && p[0] == '.' && (p.len() == 1 || p[1] == '/') {
        seq![seq!['.']] + segments_of(p.skip(1))
    } else {
        segments_of(p)
    }
}

/// `parts` joined by `sep`.
pub open spec fn joined(parts: Seq<Seq<char>>, sep: Seq<char>) -> Seq<char>
    decreases parts.len(),
{
    if parts.len() == 0 {
        Seq::empty()
    } else if parts.len() == 1 {
        parts[0]
    } else {
        joined(parts.drop_last(), sep) + sep + parts.last()
    }
}

/// Bounds of the last component, scanning the characters of `p`.
fn last_component(p: &Vec<char>) -> (r: Option<(usize, usize)>)
    ensures
        r is Some <==> last_comp(p@, p@.len() as int) is Some,
        r matches Some((s, e)) ==> last_comp(p@, p@.len() as int) == Some((s as int, e as int))
            && s < e <= p@.len(),
{
    let mut e = p.len();
    loop
        invariant
            e <= p.len(),
            last_comp(p@, p@.len() as int) == last_comp(p@, e as int),
        decreases e,
    {
        if e == 0 {
            return None;
        }
        if p[e - 1] == '/' {
            e = e - 1;
        } else {
            let mut j = e;
            while j > 0 && p[j - 1] != '/'
                invariant
                    j <= e <= p.len(),
                    e > 0,
                    p@[e - 1] != '/',
                    seg_start(p@, e as int) == seg_start(p@, j as int),
                    j == e || j < e,
                decreases j,
            {
                j = j - 1;
            }
            proof {
                lemma_seg_start(p@, e as int);
            }
            assert(seg_start(p@, j as int) == j);
            if e - j == 1 && p[j] == '.' {
                assert(p@.subrange(j as int, e as int) =~= seq!['.']);
                e = j;
            } else {
                assert(!is_cur_dir(p@.subrange(j as int, e as int))) by {
                    if is_cur_dir(p@.subrange(j as int, e as int)) {
                        assert(p@.subrange(j as int, e as int).len() == 1);
                        assert(p@.subrange(j as int, e as int)[0] == p@[j as int]);
                    }
                }
                return Some((j, e));
            }
        }
    }
}

/// Whether `s` is exactly `..`.
fn is_parent(s: &Vec<char>, from: usize, to: usize) -> (r: bool)
    requires
        from <= to <= s@.len(),
    ensures
        r == is_parent_dir(s@.subrange(from as int, to as int)),
{
    if to - from == 2 && s[from] == '.' && s[from + 1] == '.' {
        assert(s@.subrange(from as int, to as int) =~= seq!['.', '.']);
        true
    } else {
        assert(!is_parent_dir(s@.subrange(from as int, to as int))) by {
            if is_parent_dir(s@.subrange(from as int, to as int)) {
                assert(s@.subrange(from as int, to as int).len() == 2);
                assert(s@.subrange(from as int, to as int)[0] == s@[from as int]);
                assert(s@.subrange(from as int, to as int)[1] == s@[from + 1]);
            }
        }
        false
    }
}

/// The file name of a path, as characters.
fn file_name_chars(p: &Vec<char>) -> (r: Option<Vec<char>>)
    ensures
        match file_name_of(p@) {
            Some(n) => r is Some && r->0@ == n,
            None => r is None,
        },
{
    match last_component(p) {
        Some((s, e)) => {
            if is_parent(p, s, e) {
                None
            } else {
                Some(slice_of(p, s, e))
            }
        },
        None => None,
    }
}

/// The file name of `path`: its last component, unless the path ends in
/// `..`, is a root, or has no component.
pub fn file_name(path: &str) -> (r: Option<String>)
    ensures
        match file_name_of(path@) {
            Some(n) => r is Some && r->0@ == n,
            None => r is None,
        },
{
    let p = chars_of(path);
    match file_name_chars(&p) {
        Some(n) => Some(string_of(n.as_slice())),
        None => None,
    }
}

/// Position of the dot that starts the extension, or `None`.
fn find_ext_dot(name: &Vec<char>) -> (r: Option<usize>)
    ensures
        r matches Some(i) ==> ext_dot(name@) == i && 0 < i && i < name@.len(),
        r is None ==> ext_dot(name@) == -1,
{
    let mut e = name.len();
    while e > 0 && name[e - 1] != '.'
        invariant
            e <= name@.len(),
            last_index_of(name@, '.', name@.len() as int) == last_index_of(name@, '.', e as int),
        decreases e,
    {
        e = e - 1;
    }
    proof {
        lemma_last_index_of(name@, '.', name@.len() as int);
    }
    if e > 1 {
        Some(e - 1)
    } else {
        None
    }
}

/// The stem of a file name.
pub fn stem_chars(name: &Vec<char>) -> (r: Vec<char>)
    ensures
        r@ == stem_of(name@),
{
    match find_ext_dot(name) {
        Some(i) => slice_of(name, 0, i),
        None => slice_of(name, 0, name.len()),
    }
}

/// The extension of a file name.
fn extension_chars(name: &Vec<char>) -> (r: Option<Vec<char>>)
    ensures
        match extension_of(name@) {
            Some(x) => r is Some && r->0@ == x,
            None => r is None,
        },
{
    let n = name.len();
    match find_ext_dot(name) {
        Some(i) => {
            Some(slice_of(name, i + 1, n))
        },
        None => None,
    }
}

/// The extension of the file name of `path`, without its dot.
pub fn extension(path: &str) -> (r: Option<String>)
    ensures
        match path_extension_of(path@) {
            Some(x) => r is Some && r->0@ == x,
            None => r is None,
        },
{
    let p = chars_of(path);
    match file_name_chars(&p) {
        Some(n) => match extension_chars(&n) {
            Some(x) => Some(string_of(x.as_slice())),
            None => None,
        },
        None => None,
    }
}

/// Whether the file name of `path` has exactly the extension `ext`.
pub fn has_extension(path: &str, ext: &str) -> (r: bool)
    ensures
        r == (path_extension_of(path@) == Some(ext@)),
{
    match extension(path) {
        Some(x) => seq_eq(&chars_of(x.as_str()), &chars_of(ext)),
        None => false,
    }
}

/// Equality of two character sequences.
pub fn seq_eq(a: &Vec<char>, b: &Vec<char>) -> (r: bool)
    ensures
        r == (a@ == b@),
{
    if a.len() != b.len() {
        return false;
    }
    let mut i: usize = 0;
    while i < a.len()
        invariant
            a@.len() == b@.len(),
            i <= a@.len(),
            forall|k: int| 0 <= k < i ==> a@[k] == b@[k],
        decreases a.len() - i,
    {
        if a[i] != b[i] {
            return false;
        }
        i = i + 1;
    }
    assert(a@ =~= b@);
    true
}

/// Appends the characters of `src` to `dst`.
pub fn push_all(dst: &mut Vec<char>, src: &Vec<char>)
    ensures
        final(dst)@ == old(dst)@ + src@,
{
    let mut i: usize = 0;
    while i < src.len()
        invariant
            i <= src@.len(),
            dst@ == old(dst)@ + src@.take(i as int),
        decreases src.len() - i,
    {
        dst.push(src[i]);
        i = i + 1;
        assert(src@.take(i as int) =~= src@.take((i - 1) as int).push(src@[i - 1]));
    }
    assert(src@.take(src@.len() as int) =~= src@);
}

/// `p` with the extension of its file name replaced by `ext`, as characters.
pub fn with_extension_chars(p: &Vec<char>, ext: &Vec<char>) -> (r: Vec<char>)
    ensures
        r@ == with_extension_of(p@, ext@),
{
    match last_component(p) {
        Some((s, e)) => {
            if is_parent(p, s, e) {
                slice_of(p, 0, p.len())
            } else {
                let mut r = slice_of(p, 0, s);
                let name = slice_of(p, s, e);
                let st = stem_chars(&name);
                push_all(&mut r, &st);
                if ext.len() > 0 {
                    r.push('.');
                    push_all(&mut r, ext);
                    assert(r@ =~= p@.take(s as int) + stem_of(name@) + (seq!['.'] + ext@));
                } else {
                    assert(r@ =~= p@.take(s as int) + stem_of(name@) + Seq::<char>::empty());
                }
                r
            }
        },
        None => {
            let r = slice_of(p, 0, p.len());
            assert(r@ =~= p@);
            r
        },
    }
}

/// `path` with the extension of its file name replaced by `ext`, or
/// removed when `ext` is empty; a path without a file name is returned
/// unchanged.
pub fn with_extension(path: &str, ext: &str) -> (r: String)
    ensures
        r@ == with_extension_of(path@, ext@),
{
    let p = chars_of(path);
    let x = chars_of(ext);
    let r = with_extension_chars(&p, &x);
    string_of(r.as_slice())
}

/// `rel` appended to `base` as a further component, as characters.
pub fn join_chars(base: &Vec<char>, rel: &Vec<char>) -> (r: Vec<char>)
    ensures
        r@ == join_of(base@, rel@),
{
    if rel.len() > 0 && rel[0] == '/' {
        slice_of(rel, 0, rel.len())
    } else {
        let mut r = slice_of(base, 0, base.len());
        if base.len() > 0 && base[base.len() - 1] != '/' {
            r.push('/');
        }
        push_all(&mut r, rel);
        r
    }
}

/// `rel` appended to `base` as a further component; an absolute `rel`
/// replaces `base`.
pub fn join(base: &str, rel: &str) -> (r: String)
    ensures
        r@ == join_of(base@, rel@),
{
    let b = chars_of(base);
    let x = chars_of(rel);
    let r = join_chars(&b, &x);
    string_of(r.as_slice())
}

/// The segments of `q`, in order.
fn segments_chars(q: &Vec<char>, from: usize) -> (r: Vec<Vec<char>>)
    requires
        from <= q@.len(),
    ensures
        r@.map_values(|v: Vec<char>| v@) == segments_of(q@.skip(from as int)),
{
    let ghost t = q@.skip(from as int);
    let mut acc: Vec<Vec<char>> = Vec::new();
    let mut cur: Vec<char> = Vec::new();
    let mut i = from;
    assert(t.take(0) =~= Seq::<char>::empty());
    while i < q.len()
        invariant
            from <= i <= q@.len(),
            t == q@.skip(from as int),
            split_state(t.take(i - from)) == (acc@.map_values(|v: Vec<char>| v@), cur@),
        decreases q.len() - i,
    {
        let c = q[i];
        let ghost before = t.take(i - from);
        assert(t.take(i - from + 1).drop_last() =~= before);
        assert(t.take(i - from + 1).last() == c);
        if c == '/' {
            let ghost a0 = acc@.map_values(|v: Vec<char>| v@);
            let dot = cur.len() == 1 && cur[0] == '.';
            if cur.len() > 0 && !dot {
                proof {
                    assert(!is_cur_dir(cur@)) by {
                        if is_cur_dir(cur@) {
                            assert(cur@[0] == '.');
                        }
                    }
                }
                acc.push(cur);
                assert(acc@.map_values(|v: Vec<char>| v@) =~= a0.push(cur@));
            } else {
                if cur.len() > 0 {
                    assert(cur@ =~= seq!['.']);
                }
            }
            cur = Vec::new();
        } else {
            cur.push(c);
        }
        i = i + 1;
    }
    assert(t.take(q@.len() - from) =~= t);
    let ghost a0 = acc@.map_values(|v: Vec<char>| v@);
    let dot = cur.len() == 1 && cur[0] == '.';
    if cur.len() > 0 && !dot {
        proof {
            assert(!is_cur_dir(cur@)) by {
                if is_cur_dir(cur@) {
                    assert(cur@[0] == '.');
                }
            }
        }
        acc.push(cur);
        assert(acc@.map_values(|v: Vec<char>| v@) =~= a0.push(cur@));
    } else {
        if cur.len() > 0 {
            assert(cur@ =~= seq!['.']);
        }
    }
    acc
}

/// The components of a path, as characters.
pub fn components_chars(p: &Vec<char>) -> (r: Vec<Vec<char>>)
    ensures
        r@.map_values(|v: Vec<char>| v@) == components_of(p@),
{
    if p.len() > 0 && p[0] == '/' {
        let mut r: Vec<Vec<char>> = Vec::new();
        let mut root: Vec<char> = Vec::new();
        root.push('/');
        r.push(root);
        let mut rest = segments_chars(p, 1);
        let ghost rs = rest@.map_values(|v: Vec<char>| v@);
        r.append(&mut rest);
        assert(r@.map_values(|v: Vec<char>| v@) =~= seq![seq!['/']] + rs);
        r
    } else if p.len() > 0 && p[0] == '.' && (p.len() == 1 || p[1] == '/') {
        let mut r: Vec<Vec<char>> = Vec::new();
        let mut cur: Vec<char> = Vec::new();
        cur.push('.');
        r.push(cur);
        let mut rest = segments_chars(p, 1);
        let ghost rs = rest@.map_values(|v: Vec<char>| v@);
        r.append(&mut rest);
        assert(r@.map_values(|v: Vec<char>| v@) =~= seq![seq!['.']] + rs);
        r
    } else {
        let r = segments_chars(p, 0);
        assert(p@.skip(0) =~= p@);
        r
    }
}

/// The components of `path`: a root `/` or a leading `.` when present, then
/// each piece between separators other than empty and `.` pieces.
pub fn components(path: &str) -> (r: Vec<String>)
    ensures
        r@.map_values(|v: String| v@) == components_of(path@),
{
    let p = chars_of(path);
    let cs = components_chars(&p);
    let ghost want = cs@.map_values(|v: Vec<char>| v@);
    let mut r: Vec<String> = Vec::new();
    let mut i: usize = 0;
    while i < cs.len()
        invariant
            i <= cs@.len(),
            want == cs@.map_values(|v: Vec<char>| v@),
            r@.map_values(|v: String| v@) == want.take(i as int),
        decreases cs.len() - i,
    {
        let s = string_of(cs[i].as_slice());
        assert(want[i as int] == cs@[i as int]@);
        assert(s@ == cs@[i as int]@);
        let ghost prev = r@;
        r.push(s);
        assert(r@.map_values(|v: String| v@) =~= prev.map_values(|v: String| v@).push(s@));
        i = i + 1;
        assert(want.take(i as int) =~= want.take(i - 1).push(want[i - 1]));
    }
    assert(want.take(cs@.len() as int) =~= want);
    r
}

} // verus!
