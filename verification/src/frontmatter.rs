//! Locating the frontmatter of a post: the text between the first two
//! `---` markers, which must be followed by content.
use vstd::prelude::*;

use crate::metadata::Frontmatter;
use crate::text::{chars_of, string_of};

verus! {

/// `pat` occurs in `s` at `i`.
pub open spec fn occurs_at(s: Seq<char>, pat: Seq<char>, i: int) -> bool {
    0 <= i && i + pat.len() <= s.len() && s.subrange(i, i + pat.len()) == pat
}

/// The first position at or after `from` where `pat` occurs in `s`.
pub open spec fn find_from(s: Seq<char>, pat: Seq<char>, from: int) -> Option<int>
    decreases s.len() + 1 - from,
{
    if from < 0 || from + pat.len() > s.len() {
        None
    } else if occurs_at(s, pat, from) {
        Some(from)
    } else {
        find_from(s, pat, from + 1)
    }
}

/// A search finds the first occurrence at or after `from`: the pattern
/// stands where it is found and nowhere between `from` and there; a
/// search finds nothing exactly when the pattern stands nowhere after
/// `from`.
pub proof fn law_find_from(s: Seq<char>, pat: Seq<char>, from: int)
    requires
        0 <= from,
    ensures
        find_from(s, pat, from) matches Some(i) ==> from <= i && i + pat.len() <= s.len()
            && s.subrange(i, i + pat.len()) == pat && forall|j: int|
            from <= j < i ==> #[trigger] s.subrange(j, j + pat.len()) != pat,
        find_from(s, pat, from) is None ==> forall|j: int|
            from <= j && j + pat.len() <= s.len() ==> #[trigger] s.subrange(j, j + pat.len()) != pat,
    decreases s.len() + 1 - from,
{
    if from + pat.len() <= s.len() && !occurs_at(s, pat, from) {
        law_find_from(s, pat, from + 1);
    }
}

/// The marker that opens and closes a frontmatter block.
pub open spec fn marker() -> Seq<char> {
    "---"@
}

/// Where the text after the first marker ends: at the second marker, or at
/// the end of the post.
pub open spec fn section_end(s: Seq<char>, start: int) -> int {
    match find_from(s, marker(), start) {
        Some(j) => j,
        None => s.len() as int,
    }
}

/// The frontmatter text of a post and whether any piece follows it.
pub struct FrontmatterSections {
    pub yaml: String,
    pub has_content: bool,
}

/// Whether the marker occurs in `s` at `i`.
fn marker_at(s: &Vec<char>, i: usize) -> (r: bool)
    requires
        i <= s@.len(),
    ensures
        r == occurs_at(s@, marker(), i as int),
{
    proof {
        reveal_strlit("---");
    }
    if s.len() - i >= 3 && s[i] == '-' && s[i + 1] == '-' && s[i + 2] == '-' {
        assert(s@.subrange(i as int, i + 3) =~= marker());
        true
    } else {
        proof {
            if occurs_at(s@, marker(), i as int) {
                assert(s@.subrange(i as int, i + 3)[0] == s@[i as int]);
                assert(s@.subrange(i as int, i + 3)[1] == s@[i + 1]);
                assert(s@.subrange(i as int, i + 3)[2] == s@[i + 2]);
            }
        }
        false
    }
}

/// The first occurrence of the marker at or after `from`.
fn find_marker(s: &Vec<char>, from: usize) -> (r: Option<usize>)
    requires
        from <= s@.len(),
    ensures
        r is None <==> find_from(s@, marker(), from as int) is None,
        r matches Some(j) ==> find_from(s@, marker(), from as int) == Some(j as int) && from <= j
            && j + 3 <= s@.len(),
{
    proof {
        reveal_strlit("---");
    }
    let mut i = from;
    while i < s.len()
        invariant
            from <= i <= s@.len(),
            marker() =~= seq!['-', '-', '-'],
            find_from(s@, marker(), from as int) == find_from(s@, marker(), i as int),
        decreases s@.len() - i,
    {
        if marker_at(s, i) {
            return Some(i);
        }
        i = i + 1;
    }
    None
}

/// The pieces of a post around its first two markers: the text after the
/// first marker, up to the second or to the end, and whether a second
/// marker exists; `None` when the post has no marker.
proof fn lemma_sections_direct(md: Seq<char>, r: Option<FrontmatterSections>)
    requires
        match find_from(md, marker(), 0) {
            None => r is None,
            Some(i) => r matches Some(fs) && fs.yaml@ == md.subrange(
                i + 3,
                section_end(md, i + 3),
            ) && fs.has_content == (find_from(md, marker(), i + 3) is Some),
        },
    ensures
        r is None <==> forall|j: int|
            0 <= j && j + 3 <= md.len() ==> #[trigger] md.subrange(j, j + 3) != "---"@,
        r matches Some(fs) ==> exists|i: int|
            {
                &&& 0 <= i && i + 3 + fs.yaml@.len() <= md.len()
                &&& #[trigger] md.subrange(i, i + 3) == "---"@
                &&& forall|j: int| 0 <= j < i ==> #[trigger] md.subrange(j, j + 3) != "---"@
                &&& md.subrange(i + 3, i + 3 + fs.yaml@.len()) == fs.yaml@
                &&& forall|j: int|
                    i + 3 <= j < i + 3 + fs.yaml@.len() && j + 3 <= md.len() ==> #[trigger] md.subrange(
                        j,
                        j + 3,
                    ) != "---"@
                &&& fs.has_content ==> i + 3 + fs.yaml@.len() + 3 <= md.len() && md.subrange(
                    i + 3 + fs.yaml@.len(),
                    i + 6 + fs.yaml@.len(),
                ) == "---"@
                &&& !fs.has_content ==> i + 3 + fs.yaml@.len() == md.len()
            },
{
    reveal_strlit("---");
    law_find_from(md, marker(), 0);
    match find_from(md, marker(), 0) {
        None => {},
        Some(i) => {
            law_find_from(md, marker(), i + 3);
            let fs = r->0;
            let e = section_end(md, i + 3);
            assert(md.subrange(i, i + 3) == "---"@);
            assert(fs.yaml@.len() == e - (i + 3));
        },
    }
}

pub fn frontmatter_sections(md: &str) -> (r: Option<FrontmatterSections>)
    ensures
        match find_from(md@, marker(), 0) {
            None => r is None,
            Some(i) => r matches Some(fs) && fs.yaml@ == md@.subrange(
                i + 3,
                section_end(md@, i + 3),
            ) && fs.has_content == (find_from(md@, marker(), i + 3) is Some),
        },
        r is None <==> forall|j: int|
            0 <= j && j + 3 <= md@.len() ==> #[trigger] md@.subrange(j, j + 3) != "---"@,
        r matches Some(fs) ==> exists|i: int|
            {
                &&& 0 <= i && i + 3 + fs.yaml@.len() <= md@.len()
                &&& #[trigger] md@.subrange(i, i + 3) == "---"@
                &&& forall|j: int| 0 <= j < i ==> #[trigger] md@.subrange(j, j + 3) != "---"@
                &&& md@.subrange(i + 3, i + 3 + fs.yaml@.len()) == fs.yaml@
                &&& forall|j: int|
                    i + 3 <= j < i + 3 + fs.yaml@.len() && j + 3 <= md@.len() ==> #[trigger] md@.subrange(
                        j,
                        j + 3,
                    ) != "---"@
                &&& fs.has_content ==> i + 3 + fs.yaml@.len() + 3 <= md@.len() && md@.subrange(
                    i + 3 + fs.yaml@.len(),
                    i + 6 + fs.yaml@.len(),
                ) == "---"@
                &&& !fs.has_content ==> i + 3 + fs.yaml@.len() == md@.len()
            },
{
    let r = {
        proof {
            reveal_strlit("---");
        }
        let s = chars_of(md);
        let n = s.len();
        match find_marker(&s, 0) {
            None => None,
            Some(i) => {
                let start = i + 3;
                match find_marker(&s, start) {
                    Some(j) => {
                        let yaml = crate::text::slice_of(&s, start, j);
                        Some(FrontmatterSections { yaml: string_of(yaml.as_slice()), has_content: true })
                    },
                    None => {
                        let yaml = crate::text::slice_of(&s, start, s.len());
                        Some(
                            FrontmatterSections { yaml: string_of(yaml.as_slice()), has_content: false },
                        )
                    },
                }
            },
        }
    };
    proof {
        lemma_sections_direct(md@, r);
    }
    r
}

pub enum FrontmatterError {
    /// The post has no `---` marker.
    MissingFrontmatter,
    /// The frontmatter text is not valid; the parser's message.
    Invalid(String),
    /// Nothing follows the frontmatter.
    MissingContent,
}

/// The frontmatter of a post, given its located pieces and what the YAML
/// parser made of the frontmatter text: the parser's error comes first,
/// then a missing content section.
pub fn frontmatter_outcome(
    sections: FrontmatterSections,
    parsed: Result<Frontmatter, String>,
) -> (r: Result<Frontmatter, FrontmatterError>)
    ensures
        match parsed {
            Err(m) => r matches Err(FrontmatterError::Invalid(e)) && e@ == m@,
            Ok(fm) => if sections.has_content {
                r == Ok::<Frontmatter, FrontmatterError>(fm)
            } else {
                r matches Err(FrontmatterError::MissingContent)
            },
        },
{
    match parsed {
        Err(m) => Err(FrontmatterError::Invalid(m)),
        Ok(fm) => if sections.has_content {
            Ok(fm)
        } else {
            Err(FrontmatterError::MissingContent)
        },
    }
}

} // verus!
