//! What a post says about itself: the frontmatter an author writes, and
//! the metadata the preprocessor derives from it for the site.
use vstd::prelude::*;

use crate::order::{lemma_str_le_total, lemma_str_le_trans, str_le, str_le_chars};
use crate::text::chars_of;

verus! {

/// How many heading levels a post's table of contents lists.
#[derive(Clone, Copy, Debug)]
pub struct ToCDepth(pub u32);

impl Default for ToCDepth {
    /// Three levels.
    fn default() -> (r: Self)
        ensures
            r.0 == 3,
    {
        ToCDepth(3)
    }
}

/// The metadata block an author writes at the top of a post.
#[derive(Clone, Debug)]
pub struct Frontmatter {
    pub title: String,
    pub brief: Option<String>,
    pub tagline: Option<String>,
    pub series: Option<String>,
    pub tags: Vec<String>,
    pub published: String,
    pub updated: Option<String>,
    pub toc_depth: ToCDepth,
}

impl Default for Frontmatter {
    /// Empty text, no optional field, no tag, the default depth.
    fn default() -> (r: Self)
        ensures
            r.title@.len() == 0,
            r.brief is None,
            r.tagline is None,
            r.series is None,
            r.tags@.len() == 0,
            r.published@.len() == 0,
            r.updated is None,
            r.toc_depth.0 == 3,
    {
        Frontmatter {
            title: String::new(),
            brief: None,
            tagline: None,
            series: None,
            tags: Vec::new(),
            published: String::new(),
            updated: None,
            toc_depth: ToCDepth::default(),
        }
    }
}

/// A series of posts: its display name and the slug it is filtered by.
#[derive(Clone, Debug)]
pub struct Series {
    pub name: String,
    pub slug: String,
}

/// The metadata the preprocessor writes next to each rendered post.
#[derive(Clone, Debug)]
pub struct MetaData {
    pub title: String,
    pub slug: String,
    pub brief: String,
    pub tagline: Option<String>,
    pub series: Option<Series>,
    pub tags: Vec<String>,
    pub word_count: usize,
    pub reading_time: usize,
    pub published: String,
    pub updated: Option<String>,
}

/// The metadata of a post as the server reads it, with its revision
/// history and table-of-contents depth.
#[derive(Clone, Debug)]
pub struct PostMetaData {
    pub title: String,
    pub slug: String,
    pub brief: String,
    pub tagline: Option<String>,
    pub series: Option<Series>,
    pub tags: Vec<String>,
    pub word_count: usize,
    pub reading_time: usize,
    pub published: String,
    pub updated: String,
    pub revisions: String,
    pub toc_depth: u32,
}

/// The texts of a list of strings.
pub open spec fn texts(v: Seq<String>) -> Seq<Seq<char>> {
    v.map_values(|s: String| s@)
}

/// The text of an optional string.
pub open spec fn opt_text(o: Option<String>) -> Option<Seq<char>> {
    match o {
        Some(s) => Some(s@),
        None => None,
    }
}

/// The slug that `slug::slugify` makes of a text.
pub uninterp spec fn slug_of(s: Seq<char>) -> Seq<char>;

/// A slug: lower-case ASCII letters, digits and single dashes, with no dash
/// at either end.
pub open spec fn is_slug(s: Seq<char>) -> bool {
    &&& forall|k: int|
        0 <= k < s.len() ==> ('a' <= #[trigger] s[k] <= 'z') || ('0' <= s[k] <= '9') || s[k] == '-'
    &&& forall|k: int| 0 <= k < s.len() - 1 ==> !(#[trigger] s[k] == '-' && s[k + 1] == '-')
    &&& (s.len() > 0 ==> s[0] != '-' && s.last() != '-')
}

/// Calls `slug::slugify`. Claimed: the result is the crate's slug of `s`
/// (named `slug_of`, a function of the text alone: transliteration by the
/// crate's table is left unstated), and it is a slug as the crate documents
/// it: made of `a-z`, `0-9` and `-`, never two dashes in a row, never a
/// dash at either end.
#[verifier::external_body]
pub(crate) fn slugify(s: &str) -> (r: String)
    ensures
        r@ == slug_of(s@),
        is_slug(r@),
{
    slug::slugify(s)
}

/// The strings of `v` are in code-point order.
pub open spec fn sorted_texts(v: Seq<Seq<char>>) -> bool {
    forall|i: int, j: int| 0 <= i < j < v.len() ==> str_le(v[i], v[j])
}

/// A copy of a string.
pub fn copy_string(s: &String) -> (r: String)
    ensures
        r@ == s@,
{
    s.clone()
}

/// A copy of a list of strings.
pub fn copy_strings(v: &Vec<String>) -> (r: Vec<String>)
    ensures
        texts(r@) == texts(v@),
{
    let mut r: Vec<String> = Vec::new();
    let mut i: usize = 0;
    while i < v.len()
        invariant
            i <= v@.len(),
            texts(r@) == texts(v@).take(i as int),
        decreases v@.len() - i,
    {
        let ghost prev = r@;
        r.push(copy_string(&v[i]));
        assert(texts(r@) =~= texts(prev).push(v@[i as int]@));
        i = i + 1;
        assert(texts(v@).take(i as int) =~= texts(v@).take(i - 1).push(v@[i - 1]@));
    }
    assert(texts(v@).take(v@.len() as int) =~= texts(v@));
    r
}

/// A list of strings in code-point order, with the same strings as `v`.
pub fn sort_strings(v: Vec<String>) -> (r: Vec<String>)
    ensures
        sorted_texts(texts(r@)),
        texts(r@).to_multiset() == texts(v@).to_multiset(),
        r@.len() == v@.len(),
{
    broadcast use vstd::seq_lib::group_to_multiset_ensures;

    let ghost tv = texts(v@);
    let mut out: Vec<String> = Vec::new();
    let mut outc: Vec<Vec<char>> = Vec::new();
    let mut k: usize = 0;
    while k < v.len()
        invariant
            k <= v@.len(),
            tv == texts(v@),
            out@.len() == outc@.len() == k,
            texts(out@) == outc@.map_values(|c: Vec<char>| c@),
            sorted_texts(texts(out@)),
            texts(out@).to_multiset() == tv.take(k as int).to_multiset(),
        decreases v@.len() - k,
    {
        let x = chars_of(v[k].as_str());
        let mut p: usize = 0;
        while p < outc.len() && str_le_chars(&outc[p], &x)
            invariant
                p <= outc@.len(),
                out@.len() == outc@.len(),
                texts(out@) == outc@.map_values(|c: Vec<char>| c@),
                forall|i: int| 0 <= i < p ==> str_le(texts(out@)[i], x@),
            decreases outc@.len() - p,
        {
            assert(texts(out@)[p as int] == outc@[p as int]@);
            p = p + 1;
        }
        let ghost before = texts(out@);
        proof {
            if p < before.len() {
                assert(before[p as int] == outc@[p as int]@);
                lemma_str_le_total(before[p as int], x@);
            }
        }
        let ghost oc = outc@;
        let ghost oo = out@;
        outc.insert(p, x);
        out.insert(p, copy_string(&v[k]));
        proof {
            assert(out@ =~= oo.insert(p as int, out@[p as int]));
            assert(texts(out@) =~= before.insert(p as int, x@));
            assert(outc@.map_values(|c: Vec<char>| c@) =~= oc.map_values(|c: Vec<char>| c@).insert(
                p as int,
                x@,
            ));
            assert(tv.take(k + 1) =~= tv.take(k as int).push(x@));
            vstd::seq_lib::to_multiset_insert(before, p as int, x@);
            vstd::seq_lib::to_multiset_build(tv.take(k as int), x@);
            let now = texts(out@);
            assert forall|i: int, j: int| 0 <= i < j < now.len() implies str_le(now[i], now[j]) by {
                if j < p {
                    assert(now[i] == before[i] && now[j] == before[j]);
                } else if j == p {
                    assert(now[i] == before[i]);
                } else if i == p {
                    assert(now[j] == before[j - 1]);
                    if j - 1 > p {
                        lemma_str_le_trans(x@, before[p as int], before[j - 1]);
                    }
                } else if i < p {
                    assert(now[i] == before[i] && now[j] == before[j - 1]);
                } else {
                    assert(now[i] == before[i - 1] && now[j] == before[j - 1]);
                }
            }
        }
        k = k + 1;
    }
    assert(tv.take(v@.len() as int) =~= tv);
    out
}

/// The slugs of a list of tags, in the tags' order.
fn slugify_all(v: &Vec<String>) -> (r: Vec<String>)
    ensures
        texts(r@) == texts(v@).map_values(|t: Seq<char>| slug_of(t)),
{
    let mut r: Vec<String> = Vec::new();
    let mut i: usize = 0;
    while i < v.len()
        invariant
            i <= v@.len(),
            texts(r@) == texts(v@).take(i as int).map_values(|t: Seq<char>| slug_of(t)),
        decreases v@.len() - i,
    {
        let ghost prev = r@;
        r.push(slugify(v[i].as_str()));
        assert(texts(r@) =~= texts(prev).push(slug_of(v@[i as int]@)));
        i = i + 1;
        assert(texts(v@).take(i as int).map_values(|t: Seq<char>| slug_of(t)) =~= texts(v@).take(
            i - 1,
        ).map_values(|t: Seq<char>| slug_of(t)).push(slug_of(v@[i - 1]@)));
    }
    assert(texts(v@).take(v@.len() as int) =~= texts(v@));
    r
}

/// Minutes a post takes to read: 240 words a minute, rounded down.
pub open spec fn reading_time_of(word_count: nat) -> nat {
    word_count / 240
}

impl MetaData {
    /// The metadata the preprocessor derives for a post from its
    /// frontmatter, its slug, its word count and its first paragraph: the
    /// brief defaults to the first paragraph, the series gets a slug, the
    /// tags become slugs in code-point order, and the reading time counts
    /// 240 words a minute.
    pub fn from_frontmatter(
        fm: Frontmatter,
        slug: String,
        word_count: usize,
        first_paragraph: String,
    ) -> (r: MetaData)
        ensures
            r.title@ == fm.title@,
            r.slug@ == slug@,
            r.brief@ == match fm.brief {
                Some(b) => b@,
                None => first_paragraph@,
            },
            opt_text(r.tagline) == opt_text(fm.tagline),
            match fm.series {
                Some(s) => r.series matches Some(rs) && rs.name@ == s@ && rs.slug@ == slug_of(s@),
                None => r.series is None,
            },
            sorted_texts(texts(r.tags@)),
            texts(r.tags@).to_multiset() == texts(fm.tags@).map_values(
                |t: Seq<char>| slug_of(t),
            ).to_multiset(),
            r.word_count == word_count,
            r.reading_time == reading_time_of(word_count as nat),
            r.reading_time == word_count / 240,
            forall|i: int, j: int|
                #![trigger r.tags@[i], r.tags@[j]]
                0 <= i < j < r.tags@.len() ==> str_le(r.tags@[i]@, r.tags@[j]@),
            r.published@ == fm.published@,
            opt_text(r.updated) == opt_text(fm.updated),
    {
        let tags = sort_strings(slugify_all(&fm.tags));
        let series = match fm.series {
            Some(s) => {
                let slug = slugify(s.as_str());
                Some(Series { name: s, slug })
            },
            None => None,
        };
        let brief = match fm.brief {
            Some(b) => b,
            None => first_paragraph,
        };
        assert forall|i: int, j: int|
            #![trigger tags@[i], tags@[j]]
            0 <= i < j < tags@.len() implies str_le(tags@[i]@, tags@[j]@) by {
            assert(texts(tags@)[i] == tags@[i]@ && texts(tags@)[j] == tags@[j]@);
        }
        MetaData {
            title: fm.title,
            slug,
            brief,
            tagline: fm.tagline,
            series,
            tags,
            word_count,
            reading_time: word_count / 240,
            published: fm.published,
            updated: fm.updated,
        }
    }
}

} // verus!
