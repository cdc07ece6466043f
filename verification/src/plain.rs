//! Reading the plain-text rendition of a post: its word count and its
//! first paragraph.
use vstd::prelude::*;

use crate::text::{chars_of, string_of};

verus! {

/// A white-space character in the sense of Unicode's `White_Space`
/// property, which `char::is_whitespace` follows.
pub open spec fn is_white(c: char) -> bool {
    let v = c as int;
    (9 <= v <= 13) || v == 32 || v == 0x85 || v == 0xA0 || v == 0x1680 || (0x2000 <= v <= 0x200A)
        || v == 0x2028 || v == 0x2029 || v == 0x202F || v == 0x205F || v == 0x3000
}

/// Whether `c` is white space.
pub fn is_whitespace(c: char) -> (r: bool)
    ensures
        r == is_white(c),
{
    let v = c as u32;
    (9 <= v && v <= 13) || v == 32 || v == 0x85 || v == 0xA0 || v == 0x1680 || (0x2000 <= v && v
        <= 0x200A) || v == 0x2028 || v == 0x2029 || v == 0x202F || v == 0x205F || v == 0x3000
}

/// The number of words in `s`: maximal runs of characters that are not
/// white space.
pub open spec fn word_count_of(s: Seq<char>) -> nat
    decreases s.len(),
{
    if s.len() == 0 {
        0
    } else {
        word_count_of(s.drop_last()) + if !is_white(s.last()) && (s.len() == 1 || is_white(
            s[s.len() - 2],
        )) {
            1nat
        } else {
            0nat
        }
    }
}

/// A white-space character separates words: the words of `a`, a white
/// space and `b` are those of `a` and those of `b`.
pub proof fn law_word_count_split(a: Seq<char>, c: char, b: Seq<char>)
    requires
        is_white(c),
    ensures
        word_count_of(a + seq![c] + b) == word_count_of(a) + word_count_of(b),
    decreases b.len(),
{
    let x = a + seq![c] + b;
    if b.len() == 0 {
        assert(x.drop_last() =~= a);
    } else {
        law_word_count_split(a, c, b.drop_last());
        assert(x.drop_last() =~= a + seq![c] + b.drop_last());
        assert(x.last() == b.last());
        if b.len() == 1 {
            assert(x[x.len() - 2] == c);
        } else {
            assert(x[x.len() - 2] == b[b.len() - 2]);
        }
    }
}

/// A run of characters none of which is white space is one word, and
/// nothing is no word.
pub proof fn law_word_count_word(w: Seq<char>)
    requires
        forall|k: int| 0 <= k < w.len() ==> !is_white(#[trigger] w[k]),
    ensures
        word_count_of(w) == if w.len() == 0 {
            0nat
        } else {
            1nat
        },
    decreases w.len(),
{
    if w.len() > 1 {
        let d = w.drop_last();
        assert forall|k: int| 0 <= k < d.len() implies !is_white(#[trigger] d[k]) by {
            assert(d[k] == w[k]);
        }
        law_word_count_word(d);
        assert(!is_white(w[w.len() - 2]));
    }
    if w.len() > 0 {
        assert(!is_white(w[w.len() - 1]));
        if w.len() == 1 {
            assert(w.drop_last().len() == 0);
            assert(word_count_of(w.drop_last()) == 0);
            assert(w.last() == w[0]);
        }
    }
}

/// The lines finished so far and the line in progress.
pub open spec fn lines_state(s: Seq<char>) -> (Seq<Seq<char>>, Seq<char>)
    decreases s.len(),
{
    if s.len() == 0 {
        (Seq::empty(), Seq::empty())
    } else {
        let (done, cur) = lines_state(s.drop_last());
        if s.last() == '\n' {
            (done.push(strip_cr(cur)), Seq::empty())
        } else {
            (done, cur.push(s.last()))
        }
    }
}

/// A line without the carriage return that ended it.
pub open spec fn strip_cr(l: Seq<char>) -> Seq<char> {
    if l.len() > 0 && l.last() == '\r' {
        l.drop_last()
    } else {
        l
    }
}

/// The lines of `s` as `str::lines` gives them: split at `\n`, a `\r`
/// before the `\n` dropped, and no empty line after a final `\n`.
pub open spec fn lines_of(s: Seq<char>) -> Seq<Seq<char>> {
    let (done, cur) = lines_state(s);
    if cur.len() > 0 {
        done.push(cur)
    } else {
        done
    }
}

proof fn lemma_lines_state(s: Seq<char>)
    ensures
        forall|i: int, k: int|
            0 <= i < lines_state(s).0.len() && 0 <= k < lines_state(s).0[i].len()
                ==> #[trigger] lines_state(s).0[i][k] != '\n',
        forall|k: int| 0 <= k < lines_state(s).1.len() ==> #[trigger] lines_state(s).1[k] != '\n',
        (forall|k: int| 0 <= k < s.len() ==> #[trigger] s[k] != '\r') ==> lines_state(s).0.map_values(
            |l: Seq<char>| l + seq!['\n'],
        ).flatten_alt() + lines_state(s).1 == s,
    decreases s.len(),
{
    if s.len() > 0 {
        let d = s.drop_last();
        lemma_lines_state(d);
        let (done, cur) = lines_state(d);
        if forall|k: int| 0 <= k < s.len() ==> #[trigger] s[k] != '\r' {
            assert forall|k: int| 0 <= k < d.len() implies #[trigger] d[k] != '\r' by {
                assert(d[k] == s[k]);
            }
            if cur.len() > 0 {
                assert(cur.last() != '\r') by {
                    let m = done.map_values(|l: Seq<char>| l + seq!['\n']).flatten_alt();
                    assert(m + cur == d);
                    assert(d[d.len() - 1] == cur.last());
                }
            }
        }
        if s.last() == '\n' {
            let nd = done.push(strip_cr(cur));
            assert forall|i: int, k: int| 0 <= i < nd.len() && 0 <= k < nd[i].len() implies #[trigger] nd[i][k] != '\n' by {
                if i < done.len() {
                    assert(nd[i] == done[i]);
                } else {
                    assert(nd[i][k] == cur[k]);
                }
            }
            let f = |l: Seq<char>| l + seq!['\n'];
            assert(nd.map_values(f).drop_last() =~= done.map_values(f));
            assert(s =~= d + seq!['\n']);
        } else {
            assert(s =~= d + seq![s.last()]);
        }
    }
}

/// The lines of a text hold no line break, and, in a text without
/// carriage returns, each line followed by a line break gives the text
/// again, with one more line break when the text does not end in one.
pub proof fn law_lines_of(s: Seq<char>)
    ensures
        forall|i: int, k: int|
            0 <= i < lines_of(s).len() && 0 <= k < lines_of(s)[i].len() ==> #[trigger] lines_of(s)[i][k]
                != '\n',
        (forall|k: int| 0 <= k < s.len() ==> #[trigger] s[k] != '\r') ==> lines_of(s).map_values(
            |l: Seq<char>| l + seq!['\n'],
        ).flatten() == if s.len() > 0 && s.last() != '\n' {
            s + seq!['\n']
        } else {
            s
        },
{
    lemma_lines_state(s);
    let (done, cur) = lines_state(s);
    let ls = lines_of(s);
    let f = |l: Seq<char>| l + seq!['\n'];
    if cur.len() > 0 {
        assert forall|i: int, k: int| 0 <= i < ls.len() && 0 <= k < ls[i].len() implies #[trigger] ls[i][k] != '\n' by {
            if i < done.len() {
                assert(ls[i] == done[i]);
            } else {
                assert(ls[i][k] == cur[k]);
            }
        }
        assert(ls.map_values(f).drop_last() =~= done.map_values(f));
    }
    ls.map_values(f).lemma_flatten_and_flatten_alt_are_equivalent();
    if forall|k: int| 0 <= k < s.len() ==> #[trigger] s[k] != '\r' {
        if cur.len() > 0 {
            assert(s.last() == cur.last()) by {
                assert(done.map_values(f).flatten_alt() + cur == s);
            }
            assert(ls.map_values(f).flatten_alt() == done.map_values(f).flatten_alt() + (cur + seq!['\n']));
            assert(done.map_values(f).flatten_alt() + (cur + seq!['\n']) =~= s + seq!['\n']);
        } else {
            assert(done.map_values(f).flatten_alt() + cur =~= done.map_values(f).flatten_alt());
            if s.len() > 0 {
                assert(s.last() == '\n');
            }
        }
    }
}

/// A line that can open a post: not empty and not a heading.
pub open spec fn is_paragraph_line(l: Seq<char>) -> bool {
    l.len() > 0 && l[0] != '#'
}

/// The first line of `ls` at or after `from` that can open a post.
pub open spec fn first_paragraph_from(ls: Seq<Seq<char>>, from: int) -> Option<Seq<char>>
    decreases ls.len() - from,
{
    if from < 0 || from >= ls.len() {
        None
    } else if is_paragraph_line(ls[from]) {
        Some(ls[from])
    } else {
        first_paragraph_from(ls, from + 1)
    }
}

/// The first line of `s` that is neither empty nor a heading.
pub open spec fn first_paragraph_of(s: Seq<char>) -> Option<Seq<char>> {
    first_paragraph_from(lines_of(s), 0)
}

/// The opening line is the first line that is neither empty nor a
/// heading: every line before it is empty or a heading; there is none
/// exactly when every line is.
pub proof fn law_first_paragraph(s: Seq<char>)
    ensures
        first_paragraph_of(s) matches Some(p) ==> exists|k: int|
            0 <= k < lines_of(s).len() && #[trigger] lines_of(s)[k] == p && p.len() > 0 && p[0]
                != '#' && forall|j: int|
                0 <= j < k ==> (#[trigger] lines_of(s)[j]).len() == 0 || lines_of(s)[j][0] == '#',
        first_paragraph_of(s) is None ==> forall|j: int|
            0 <= j < lines_of(s).len() ==> (#[trigger] lines_of(s)[j]).len() == 0 || lines_of(
                s,
            )[j][0] == '#',
{
    lemma_first_paragraph_from(lines_of(s), 0);
}

proof fn lemma_first_paragraph_from(ls: Seq<Seq<char>>, from: int)
    requires
        0 <= from <= ls.len(),
    ensures
        first_paragraph_from(ls, from) matches Some(p) ==> exists|k: int|
            from <= k < ls.len() && #[trigger] ls[k] == p && p.len() > 0 && p[0] != '#' && forall|j: int|
                from <= j < k ==> (#[trigger] ls[j]).len() == 0 || ls[j][0] == '#',
        first_paragraph_from(ls, from) is None ==> forall|j: int|
            from <= j < ls.len() ==> (#[trigger] ls[j]).len() == 0 || ls[j][0] == '#',
    decreases ls.len() - from,
{
    if from < ls.len() && !is_paragraph_line(ls[from]) {
        lemma_first_paragraph_from(ls, from + 1);
        if let Some(p) = first_paragraph_from(ls, from + 1) {
            let k = choose|k: int|
                from + 1 <= k < ls.len() && #[trigger] ls[k] == p && p.len() > 0 && p[0] != '#'
                    && forall|j: int| from + 1 <= j < k ==> (#[trigger] ls[j]).len() == 0 || ls[j][0]
                        == '#';
            assert(ls[k] == p);
        }
    } else if from < ls.len() {
        assert(ls[from] == ls[from]);
    }
}

/// The number of words in a text.
pub fn word_count(text: &str) -> (r: usize)
    ensures
        r == word_count_of(text@),
{
    let s = chars_of(text);
    let mut count: usize = 0;
    let mut i: usize = 0;
    while i < s.len()
        invariant
            i <= s@.len(),
            count == word_count_of(s@.take(i as int)),
            count <= i,
        decreases s@.len() - i,
    {
        let starts = !is_whitespace(s[i]) && (i == 0 || is_whitespace(s[i - 1]));
        assert(s@.take(i + 1).drop_last() =~= s@.take(i as int));
        if starts {
            count = count + 1;
        }
        i = i + 1;
    }
    assert(s@.take(s@.len() as int) =~= s@);
    count
}

/// The lines of a text, as characters.
pub fn lines(text: &Vec<char>) -> (r: Vec<Vec<char>>)
    ensures
        r@.map_values(|l: Vec<char>| l@) == lines_of(text@),
{
    let mut done: Vec<Vec<char>> = Vec::new();
    let mut cur: Vec<char> = Vec::new();
    let mut i: usize = 0;
    while i < text.len()
        invariant
            i <= text@.len(),
            lines_state(text@.take(i as int)) == (done@.map_values(|l: Vec<char>| l@), cur@),
        decreases text@.len() - i,
    {
        let c = text[i];
        assert(text@.take(i + 1).drop_last() =~= text@.take(i as int));
        assert(text@.take(i + 1).last() == c);
        if c == '\n' {
            let ghost d0 = done@.map_values(|l: Vec<char>| l@);
            let ghost c0 = cur@;
            if cur.len() > 0 && cur[cur.len() - 1] == '\r' {
                cur.pop();
            }
            assert(cur@ == strip_cr(c0));
            done.push(cur);
            assert(done@.map_values(|l: Vec<char>| l@) =~= d0.push(strip_cr(c0)));
            cur = Vec::new();
        } else {
            cur.push(c);
        }
        i = i + 1;
    }
    assert(text@.take(text@.len() as int) =~= text@);
    if cur.len() > 0 {
        let ghost d0 = done@.map_values(|l: Vec<char>| l@);
        let ghost c0 = cur@;
        done.push(cur);
        assert(done@.map_values(|l: Vec<char>| l@) =~= d0.push(c0));
    }
    done
}

/// The first line of a text that is neither empty nor a heading.
pub fn first_paragraph(text: &str) -> (r: Option<String>)
    ensures
        match first_paragraph_of(text@) {
            Some(p) => r is Some && r->0@ == p,
            None => r is None,
        },
{
    let s = chars_of(text);
    let ls = lines(&s);
    let ghost lv = ls@.map_values(|l: Vec<char>| l@);
    let mut i: usize = 0;
    while i < ls.len()
        invariant
            i <= ls@.len(),
            lv == ls@.map_values(|l: Vec<char>| l@),
            lv == lines_of(s@),
            s@ == text@,
            first_paragraph_from(lv, 0) == first_paragraph_from(lv, i as int),
        decreases ls@.len() - i,
    {
        assert(lv[i as int] == ls@[i as int]@);
        if ls[i].len() > 0 && ls[i][0] != '#' {
            assert(is_paragraph_line(lv[i as int]));
            assert(first_paragraph_from(lv, i as int) == Some(lv[i as int]));
            let found = string_of(ls[i].as_slice());
            assert(found@ == lv[i as int]);
            return Some(found);
        }
        i = i + 1;
    }
    None
}

/// Why a plain-text rendition cannot describe its post.
pub enum PlainTextError {
    /// No line is both non-empty and not a heading.
    EmptyContent,
}

/// The word count and the opening paragraph of a post's plain-text
/// rendition; an error when no line can open the post.
pub fn process_plain(plain: &str) -> (r: Result<(usize, String), PlainTextError>)
    ensures
        match first_paragraph_of(plain@) {
            Some(p) => r matches Ok((n, f)) && n == word_count_of(plain@) && f@ == p,
            None => r is Err,
        },
{
    match first_paragraph(plain) {
        Some(p) => Ok((word_count(plain), p)),
        None => Err(PlainTextError::EmptyContent),
    }
}

} // verus!
