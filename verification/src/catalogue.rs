//! The catalogue of posts the server browses: filtering by series, tags and
//! a title search, ordering, and paging through the results in chunks.
use vstd::prelude::*;

use crate::frontmatter::{find_from, law_find_from, occurs_at};
use crate::metadata::{sort_strings, texts, PostMetaData, Series};
use crate::order::{all_below, key_before, sort_by_keys, sorted_by_keys, str_le};
use crate::paths::seq_eq;
use crate::text::{chars_of, slice_of};

verus! {

/// How many posts one page of results shows.
pub const CHUNK_SIZE: usize = 5;

/// The filters of the post browser, as given in the query string.
#[derive(Clone, Debug)]
pub struct PostsFilters {
    pub tag: Vec<String>,
    pub series: Option<String>,
    pub search: Option<String>,
    pub skip: Option<usize>,
}

/// The lower-case form of a text, as `str::to_lowercase` makes it.
pub uninterp spec fn lowercase_of(s: Seq<char>) -> Seq<char>;

/// Calls `str::to_lowercase`. Claimed: the result is the Unicode lower-case
/// mapping of `s` (named `lowercase_of`, a function of the text alone);
/// the mapping itself is left unstated.
#[verifier::external_body]
fn to_lowercase(s: &str) -> (r: String)
    ensures
        r@ == lowercase_of(s@),
{
    s.to_lowercase()
}

/// `needle` occurs somewhere in `hay`.
pub open spec fn contains_text(hay: Seq<char>, needle: Seq<char>) -> bool {
    find_from(hay, needle, 0) is Some
}

/// A text contains another exactly when the other stands somewhere in it.
pub proof fn law_contains_text(hay: Seq<char>, needle: Seq<char>)
    ensures
        contains_text(hay, needle) <==> exists|j: int|
            0 <= j && j + needle.len() <= hay.len() && #[trigger] hay.subrange(j, j + needle.len())
                == needle,
{
    law_find_from(hay, needle, 0);
    if contains_text(hay, needle) {
        let i = find_from(hay, needle, 0)->0;
        assert(hay.subrange(i, i + needle.len()) == needle);
    }
}

/// The post belongs to the series the filters ask for, if they ask for one.
pub open spec fn series_ok(f: PostsFilters, p: PostMetaData) -> bool {
    match f.series {
        None => true,
        Some(s) => p.series matches Some(ps) && ps.slug@ == s@,
    }
}

/// The post carries every tag the filters ask for.
pub open spec fn tags_ok(f: PostsFilters, p: PostMetaData) -> bool {
    forall|i: int| 0 <= i < f.tag@.len() ==> texts(p.tags@).contains(#[trigger] f.tag@[i]@)
}

/// The post's title contains the searched text, ignoring case, if the
/// filters search.
pub open spec fn search_ok(f: PostsFilters, p: PostMetaData) -> bool {
    match f.search {
        None => true,
        Some(q) => contains_text(lowercase_of(p.title@), lowercase_of(q@)),
    }
}

/// The post passes the series, tag and title filters.
pub open spec fn shown_by(f: PostsFilters, p: PostMetaData) -> bool {
    series_ok(f, p) && tags_ok(f, p) && search_ok(f, p)
}

/// The post passes the series and tag filters.
pub open spec fn kept_by(f: PostsFilters, p: PostMetaData) -> bool {
    series_ok(f, p) && tags_ok(f, p)
}

/// The positions below `n` of posts that pass the filters, in order; with
/// `search` the title search counts too.
pub open spec fn matching(posts: Seq<PostMetaData>, f: PostsFilters, search: bool, n: int) -> Seq<
    usize,
>
    decreases n,
{
    if n <= 0 || n > posts.len() {
        Seq::empty()
    } else {
        let before = matching(posts, f, search, n - 1);
        let p = posts[n - 1];
        if kept_by(f, p) && (!search || search_ok(f, p)) {
            before.push((n - 1) as usize)
        } else {
            before
        }
    }
}

/// The positions in `s` whose posts pass the series and tag filters, in
/// order.
pub open spec fn kept_positions(posts: Seq<PostMetaData>, f: PostsFilters, s: Seq<usize>) -> Seq<
    usize,
>
    decreases s.len(),
{
    if s.len() == 0 {
        Seq::empty()
    } else {
        let before = kept_positions(posts, f, s.drop_last());
        if kept_by(f, posts[s.last() as int]) {
            before.push(s.last())
        } else {
            before
        }
    }
}

/// The publication dates of the posts.
pub open spec fn published_keys(posts: Seq<PostMetaData>) -> Seq<Seq<char>> {
    posts.map_values(|p: PostMetaData| p.published@)
}

/// The titles of the posts.
pub open spec fn title_keys(posts: Seq<PostMetaData>) -> Seq<Seq<char>> {
    posts.map_values(|p: PostMetaData| p.title@)
}

/// One page of browsing results.
pub struct PostsPage {
    /// Positions of the posts on this page, in display order.
    pub posts: Vec<usize>,
    /// More results follow this page.
    pub more_after: bool,
    /// Where the next page starts.
    pub next_skip: usize,
}

/// The page of `ordered` that starts at `skip`: at most `CHUNK_SIZE`
/// results, whether more follow, and where the next page starts.
pub open spec fn page_spec(ordered: Seq<usize>, skip: int, page: PostsPage) -> bool {
    &&& page.posts@ == ordered.subrange(
        skip,
        if skip + CHUNK_SIZE < ordered.len() {
            skip + CHUNK_SIZE
        } else {
            ordered.len() as int
        },
    )
    &&& page.more_after == (ordered.len() - skip > CHUNK_SIZE)
    &&& page.next_skip == skip + CHUNK_SIZE
}

/// The page of `ordered` that starts at `skip`.
pub fn page_of(ordered: &Vec<usize>, skip: usize) -> (r: PostsPage)
    requires
        skip <= ordered@.len(),
        skip + CHUNK_SIZE <= usize::MAX,
    ensures
        page_spec(ordered@, skip as int, r),
        r.posts@.len() <= 5,
        r.posts@.len() == if ordered@.len() - skip > 5 {
            5
        } else {
            ordered@.len() - skip
        },
        r.posts@ == ordered@.subrange(skip as int, skip + r.posts@.len()),
        r.more_after == (ordered@.len() - skip > 5),
        r.next_skip == skip + 5,
{
    let remaining = ordered.len() - skip;
    let more_after = remaining > CHUNK_SIZE;
    let end = if more_after {
        skip + CHUNK_SIZE
    } else {
        ordered.len()
    };
    let posts = slice_of(ordered, skip, end);
    let r = PostsPage { posts, more_after, next_skip: skip + CHUNK_SIZE };
    proof {
        law_page_holds_at_most_five(ordered@, skip as int, r);
    }
    r
}

/// A page holds the next results from where it starts, never more than
/// five; more follow exactly when more than five remain, and the next page
/// starts five further on.
pub proof fn law_page_holds_at_most_five(ordered: Seq<usize>, skip: int, page: PostsPage)
    requires
        0 <= skip <= ordered.len(),
        page_spec(ordered, skip, page),
    ensures
        page.posts@.len() <= 5,
        page.posts@.len() == if ordered.len() - skip > 5 {
            5
        } else {
            ordered.len() - skip
        },
        page.posts@ == ordered.subrange(skip, skip + page.posts@.len()),
        page.more_after == (ordered.len() - skip > 5),
        page.next_skip == skip + 5,
{
}

/// Every page starts where the previous one said the next would, and the
/// pages from the start cover the results in order: the first `k` pages
/// hold the first `k * CHUNK_SIZE` results (all of them, when fewer).
pub proof fn law_pages_tile(ordered: Seq<usize>, k: nat)
    ensures
        pages_upto(ordered, k) == ordered.take(
            if k * CHUNK_SIZE < ordered.len() {
                (k * CHUNK_SIZE) as int
            } else {
                ordered.len() as int
            },
        ),
    decreases k,
{
    if k > 0 {
        law_pages_tile(ordered, (k - 1) as nat);
        let s = (k - 1) * CHUNK_SIZE;
        if s < ordered.len() {
            let e = if s + CHUNK_SIZE < ordered.len() {
                s + CHUNK_SIZE
            } else {
                ordered.len() as int
            };
            assert(ordered.take(s as int) + ordered.subrange(s as int, e) =~= ordered.take(e));
        }
    }
}

/// The results on the first `k` pages, one after the other.
pub open spec fn pages_upto(ordered: Seq<usize>, k: nat) -> Seq<usize>
    decreases k,
{
    if k == 0 {
        Seq::empty()
    } else {
        let s = (k - 1) * CHUNK_SIZE;
        if s < ordered.len() {
            pages_upto(ordered, (k - 1) as nat) + ordered.subrange(
                s as int,
                if s + CHUNK_SIZE < ordered.len() {
                    s + CHUNK_SIZE
                } else {
                    ordered.len() as int
                },
            )
        } else {
            pages_upto(ordered, (k - 1) as nat)
        }
    }
}

/// Some post has the slug `s`.
pub open spec fn has_slug(posts: Seq<PostMetaData>, s: Seq<char>) -> bool {
    exists|i: int| 0 <= i < posts.len() && #[trigger] posts[i].slug@ == s
}

/// The catalogue of posts: each post once by slug, the series they belong
/// to, and their tags.
pub struct PostData {
    metadata: Vec<PostMetaData>,
    series: Vec<Series>,
    tags: Vec<String>,
}

/// Whether the text `t` is one of `v`.
pub fn contains_string(v: &Vec<String>, t: &str) -> (r: bool)
    ensures
        r == texts(v@).contains(t@),
{
    let tc = chars_of(t);
    let mut i: usize = 0;
    while i < v.len()
        invariant
            i <= v@.len(),
            tc@ == t@,
            forall|j: int| 0 <= j < i ==> v@[j]@ != t@,
        decreases v@.len() - i,
    {
        if seq_eq(&chars_of(v[i].as_str()), &tc) {
            assert(texts(v@)[i as int] == t@);
            return true;
        }
        i = i + 1;
    }
    proof {
        if texts(v@).contains(t@) {
            let j = choose|j: int| 0 <= j < texts(v@).len() && texts(v@)[j] == t@;
            assert(v@[j]@ == t@);
        }
    }
    false
}

/// Whether `needle` occurs in `hay`.
pub fn contains_chars(hay: &Vec<char>, needle: &Vec<char>) -> (r: bool)
    ensures
        r == contains_text(hay@, needle@),
{
    if needle.len() == 0 {
        assert(hay@.subrange(0, 0) =~= needle@);
        return true;
    }
    if needle.len() > hay.len() {
        return false;
    }
    let hn = hay.len();
    let last = hn - needle.len();
    let mut i: usize = 0;
    while i <= last
        invariant
            hn == hay@.len(),
            needle@.len() >= 1,
            last == hay@.len() - needle@.len(),
            i <= last + 1,
            find_from(hay@, needle@, 0) == find_from(hay@, needle@, i as int),
        decreases last + 1 - i,
    {
        let mut k: usize = 0;
        while k < needle.len() && hay[i + k] == needle[k]
            invariant
                k <= needle@.len(),
                i <= last,
                hn == hay@.len(),
                last + needle@.len() == hay@.len(),
                forall|m: int| 0 <= m < k ==> hay@[i + m] == needle@[m],
            decreases needle@.len() - k,
        {
            k = k + 1;
        }
        if k == needle.len() {
            assert(hay@.subrange(i as int, i + needle@.len()) =~= needle@);
            return true;
        }
        assert(!occurs_at(hay@, needle@, i as int)) by {
            if occurs_at(hay@, needle@, i as int) {
                assert(hay@.subrange(i as int, i + needle@.len())[k as int] == hay@[i + k]);
            }
        }
        i = i + 1;
    }
    false
}

/// Whether the post passes the series and tag filters.
fn kept(f: &PostsFilters, p: &PostMetaData) -> (r: bool)
    ensures
        r == kept_by(*f, *p),
{
    match &f.series {
        Some(s) => match &p.series {
            Some(ps) => {
                if !seq_eq(&chars_of(ps.slug.as_str()), &chars_of(s.as_str())) {
                    return false;
                }
            },
            None => {
                return false;
            },
        },
        None => {},
    }
    let mut i: usize = 0;
    while i < f.tag.len()
        invariant
            i <= f.tag@.len(),
            forall|j: int| 0 <= j < i ==> texts(p.tags@).contains(#[trigger] f.tag@[j]@),
        decreases f.tag@.len() - i,
    {
        if !contains_string(&p.tags, f.tag[i].as_str()) {
            return false;
        }
        i = i + 1;
    }
    true
}

/// Whether the post's title matches the search, ignoring case.
fn searched(f: &PostsFilters, p: &PostMetaData) -> (r: bool)
    ensures
        r == search_ok(*f, *p),
{
    match &f.search {
        None => true,
        Some(q) => {
            let title = chars_of(to_lowercase(p.title.as_str()).as_str());
            let query = chars_of(to_lowercase(q.as_str()).as_str());
            contains_chars(&title, &query)
        },
    }
}

impl PostData {
    /// The posts of the catalogue.
    pub closed spec fn posts_view(&self) -> Seq<PostMetaData> {
        self.metadata@
    }

    /// The series, as they are offered.
    pub closed spec fn series_view(&self) -> Seq<Series> {
        self.series@
    }

    /// The tags, as they are offered.
    pub closed spec fn tags_view(&self) -> Seq<String> {
        self.tags@
    }

    /// The posts of the catalogue.
    pub fn posts(&self) -> (r: &Vec<PostMetaData>)
        ensures
            r@ == self.posts_view(),
    {
        &self.metadata
    }

    /// The series of the catalogue, ordered by slug.
    pub fn series(&self) -> (r: &Vec<Series>)
        ensures
            r@ == self.series_view(),
    {
        &self.series
    }

    /// The tags of the catalogue, in code-point order.
    pub fn tags(&self) -> (r: &Vec<String>)
        ensures
            r@ == self.tags_view(),
    {
        &self.tags
    }

    /// The position of the post with the given slug.
    pub fn position(&self, slug: &str) -> (r: Option<usize>)
        ensures
            r matches Some(i) ==> i < self.posts_view().len() && self.posts_view()[i as int].slug@
                == slug@,
            r is None ==> forall|i: int|
                0 <= i < self.posts_view().len() ==> (#[trigger] self.posts_view()[i]).slug@
                    != slug@,
    {
        let sc = chars_of(slug);
        let mut i: usize = 0;
        while i < self.metadata.len()
            invariant
                i <= self.metadata@.len(),
                sc@ == slug@,
                forall|j: int| 0 <= j < i ==> (#[trigger] self.metadata@[j]).slug@ != slug@,
            decreases self.metadata@.len() - i,
        {
            if seq_eq(&chars_of(self.metadata[i].slug.as_str()), &sc) {
                return Some(i);
            }
            i = i + 1;
        }
        None
    }

    /// The post with the given slug.
    pub fn get(&self, slug: &str) -> (r: Option<&PostMetaData>)
        ensures
            r matches Some(p) ==> self.posts_view().contains(*p) && p.slug@ == slug@,
            r is None ==> forall|i: int|
                0 <= i < self.posts_view().len() ==> (#[trigger] self.posts_view()[i]).slug@
                    != slug@,
    {
        match self.position(slug) {
            Some(i) => {
                assert(self.posts_view()[i as int] == self.metadata@[i as int]);
                Some(&self.metadata[i])
            },
            None => None,
        }
    }

    /// The publication dates of the posts, as characters.
    fn published_chars(&self) -> (r: Vec<Vec<char>>)
        ensures
            r@.map_values(|k: Vec<char>| k@) == published_keys(self.metadata@),
    {
        let mut r: Vec<Vec<char>> = Vec::new();
        let mut i: usize = 0;
        while i < self.metadata.len()
            invariant
                i <= self.metadata@.len(),
                r@.map_values(|k: Vec<char>| k@) == published_keys(self.metadata@).take(i as int),
            decreases self.metadata@.len() - i,
        {
            let ghost prev = r@;
            r.push(chars_of(self.metadata[i].published.as_str()));
            assert(r@.map_values(|k: Vec<char>| k@) =~= prev.map_values(|k: Vec<char>| k@).push(
                self.metadata@[i as int].published@,
            ));
            i = i + 1;
            assert(published_keys(self.metadata@).take(i as int) =~= published_keys(
                self.metadata@,
            ).take(i - 1).push(self.metadata@[i - 1].published@));
        }
        assert(published_keys(self.metadata@).take(self.metadata@.len() as int) =~= published_keys(
            self.metadata@,
        ));
        r
    }

    /// The titles of the posts, as characters.
    fn title_chars(&self) -> (r: Vec<Vec<char>>)
        ensures
            r@.map_values(|k: Vec<char>| k@) == title_keys(self.metadata@),
    {
        let mut r: Vec<Vec<char>> = Vec::new();
        let mut i: usize = 0;
        while i < self.metadata.len()
            invariant
                i <= self.metadata@.len(),
                r@.map_values(|k: Vec<char>| k@) == title_keys(self.metadata@).take(i as int),
            decreases self.metadata@.len() - i,
        {
            let ghost prev = r@;
            r.push(chars_of(self.metadata[i].title.as_str()));
            assert(r@.map_values(|k: Vec<char>| k@) =~= prev.map_values(|k: Vec<char>| k@).push(
                self.metadata@[i as int].title@,
            ));
            i = i + 1;
            assert(title_keys(self.metadata@).take(i as int) =~= title_keys(self.metadata@).take(
                i - 1,
            ).push(self.metadata@[i - 1].title@));
        }
        assert(title_keys(self.metadata@).take(self.metadata@.len() as int) =~= title_keys(
            self.metadata@,
        ));
        r
    }

    /// The positions of the posts that pass the filters, in catalogue order;
    /// with `search` the title search counts too.
    fn matching_positions(&self, f: &PostsFilters, search: bool) -> (r: Vec<usize>)
        ensures
            r@ == matching(self.metadata@, *f, search, self.metadata@.len() as int),
            all_below(r@, self.metadata@.len()),
    {
        let mut r: Vec<usize> = Vec::new();
        let mut i: usize = 0;
        while i < self.metadata.len()
            invariant
                i <= self.metadata@.len(),
                r@ == matching(self.metadata@, *f, search, i as int),
                all_below(r@, i as nat),
            decreases self.metadata@.len() - i,
        {
            let p = &self.metadata[i];
            if kept(f, p) && (!search || searched(f, p)) {
                r.push(i);
            }
            i = i + 1;
        }
        r
    }

    /// The posts the browser lists for the filters: those in the filtered
    /// series that carry every filtered tag and whose title contains the
    /// search, newest first by publication date.
    pub fn select(&self, filters: &PostsFilters) -> (r: Vec<usize>)
        ensures
            r@.to_multiset() == matching(
                self.posts_view(),
                *filters,
                true,
                self.posts_view().len() as int,
            ).to_multiset(),
            all_below(r@, self.posts_view().len()),
            sorted_by_keys(published_keys(self.posts_view()), r@, true),
            forall|i: int, j: int|
                #![trigger r@[i], r@[j]]
                0 <= i < j < r@.len() ==> str_le(
                    self.posts_view()[r@[j] as int].published@,
                    self.posts_view()[r@[i] as int].published@,
                ),
    {
        let found = self.matching_positions(filters, true);
        let keys = self.published_chars();
        assert(keys@.len() == keys@.map_values(|k: Vec<char>| k@).len());
        let r = sort_by_keys(&keys, &found, true);
        proof {
            lemma_newest_first(self.metadata@, r@);
        }
        r
    }

    /// The posts the browser lists when a search index answered the
    /// search: the posts the index found, in the index's order, or without
    /// a search all posts newest first; in both cases only those in the
    /// filtered series that carry every filtered tag.
    pub fn select_found(&self, filters: &PostsFilters, found: Option<Vec<String>>) -> (r: Vec<
        usize,
    >)
        requires
            found matches Some(slugs) ==> forall|k: int|
                0 <= k < slugs@.len() ==> has_slug(self.posts_view(), #[trigger] slugs@[k]@),
        ensures
            all_below(r@, self.posts_view().len()),
            match found {
                Some(slugs) => r@.len() <= slugs@.len() && exists|hits: Seq<usize>|
                    {
                        &&& hits.len() == slugs@.len()
                        &&& all_below(hits, self.posts_view().len())
                        &&& forall|k: int|
                            0 <= k < hits.len() ==> self.posts_view()[#[trigger] hits[k] as int].slug@
                                == slugs@[k]@
                        &&& r@ == kept_positions(self.posts_view(), *filters, hits)
                    },
                None => r@.to_multiset() == matching(
                    self.posts_view(),
                    *filters,
                    false,
                    self.posts_view().len() as int,
                ).to_multiset() && sorted_by_keys(published_keys(self.posts_view()), r@, true)
                    && forall|i: int, j: int|
                    #![trigger r@[i], r@[j]]
                    0 <= i < j < r@.len() ==> str_le(
                        self.posts_view()[r@[j] as int].published@,
                        self.posts_view()[r@[i] as int].published@,
                    ),
            },
    {
        match found {
            None => {
                let all = self.matching_positions(filters, false);
                let keys = self.published_chars();
                assert(keys@.len() == keys@.map_values(|k: Vec<char>| k@).len());
                let r = sort_by_keys(&keys, &all, true);
                proof {
                    lemma_newest_first(self.metadata@, r@);
                }
                r
            },
            Some(slugs) => {
                let mut hits: Vec<usize> = Vec::new();
                let mut r: Vec<usize> = Vec::new();
                let mut k: usize = 0;
                while k < slugs.len()
                    invariant
                        k <= slugs@.len(),
                        hits@.len() == k,
                        all_below(hits@, self.metadata@.len()),
                        all_below(r@, self.metadata@.len()),
                        r@.len() <= k,
                        forall|j: int|
                            0 <= j < k ==> self.metadata@[#[trigger] hits@[j] as int].slug@
                                == slugs@[j]@,
                        r@ == kept_positions(self.metadata@, *filters, hits@),
                        forall|k: int|
                            0 <= k < slugs@.len() ==> has_slug(self.posts_view(), #[trigger] slugs@[k]@),
                    decreases slugs@.len() - k,
                {
                    let pos = self.position(slugs[k].as_str());
                    let i = match pos {
                        Some(i) => i,
                        None => {
                            proof {
                                assert(has_slug(self.posts_view(), slugs@[k as int]@));
                                let w = choose|i: int|
                                    0 <= i < self.posts_view().len()
                                        && #[trigger] self.posts_view()[i].slug@ == slugs@[k as int]@;
                                assert(self.posts_view()[w].slug@ == slugs@[k as int]@);
                            }
                            0
                        },
                    };
                    let ghost before = hits@;
                    hits.push(i);
                    assert(hits@.drop_last() =~= before);
                    if kept(filters, &self.metadata[i]) {
                        r.push(i);
                    }
                    k = k + 1;
                }
                r
            },
        }
    }

    /// The posts the first version of the browser listed: those in the
    /// filtered series that carry every filtered tag and whose title
    /// contains the search, in order of title.
    pub fn select_by_title(&self, filters: &PostsFilters) -> (r: Vec<usize>)
        ensures
            r@.to_multiset() == matching(
                self.posts_view(),
                *filters,
                true,
                self.posts_view().len() as int,
            ).to_multiset(),
            all_below(r@, self.posts_view().len()),
            sorted_by_keys(title_keys(self.posts_view()), r@, false),
            forall|i: int, j: int|
                #![trigger r@[i], r@[j]]
                0 <= i < j < r@.len() ==> str_le(
                    self.posts_view()[r@[i] as int].title@,
                    self.posts_view()[r@[j] as int].title@,
                ),
    {
        let found = self.matching_positions(filters, true);
        let keys = self.title_chars();
        assert(keys@.len() == keys@.map_values(|k: Vec<char>| k@).len());
        let r = sort_by_keys(&keys, &found, false);
        proof {
            let posts = self.metadata@;
            assert forall|i: int, j: int|
                #![trigger r@[i], r@[j]]
                0 <= i < j < r@.len() implies str_le(posts[r@[i] as int].title@, posts[r@[j] as int].title@) by {
                assert(key_before(title_keys(posts), r@[i], r@[j], false));
            }
        }
        r
    }

    /// The `n` most recently published posts, newest first.
    pub fn recent(&self, n: usize) -> (r: Vec<usize>)
        ensures
            r@.len() == if n < self.posts_view().len() {
                n as int
            } else {
                self.posts_view().len() as int
            },
            all_below(r@, self.posts_view().len()),
            sorted_by_keys(published_keys(self.posts_view()), r@, true),
            forall|i: int, j: int|
                0 <= i < r@.len() && 0 <= j < self.posts_view().len() && !r@.contains(j as usize)
                    ==> str_le(
                    self.posts_view()[j].published@,
                    self.posts_view()[r@[i] as int].published@,
                ),
            r@.no_duplicates(),
    {
        let empty = PostsFilters { tag: Vec::new(), series: None, search: None, skip: None };
        let all = self.matching_positions(&empty, false);
        proof {
            lemma_matching_all(self.metadata@, empty, self.metadata@.len() as int);
        }
        let keys = self.published_chars();
        assert(keys@.len() == keys@.map_values(|k: Vec<char>| k@).len());
        let sorted = sort_by_keys(&keys, &all, true);
        let end = if n < sorted.len() {
            n
        } else {
            sorted.len()
        };
        let r = slice_of(&sorted, 0, end);
        proof {
            lemma_all_positions_present(sorted@, self.metadata@.len() as int);
            lemma_all_positions_distinct(sorted@, self.metadata@.len() as int);
            assert forall|i: int, j: int|
                0 <= i < r@.len() && 0 <= j < self.metadata@.len() && !r@.contains(
                    j as usize,
                ) implies str_le(
                self.metadata@[j].published@,
                self.metadata@[r@[i] as int].published@,
            ) by {
                assert(sorted@.contains(j as usize));
                let q = choose|q: int| 0 <= q < sorted@.len() && sorted@[q] == j as usize;
                if q < end {
                    assert(r@[q] == j as usize);
                }
                assert(i < q);
                assert(key_before(published_keys(self.metadata@), sorted@[i], sorted@[q], true));
                assert(r@[i] == sorted@[i]);
                assert(published_keys(self.metadata@)[j] == self.metadata@[j].published@);
                assert(published_keys(self.metadata@)[sorted@[i] as int]
                    == self.metadata@[sorted@[i] as int].published@);
            }
            assert forall|i: int, j: int| 0 <= i < r@.len() && 0 <= j < r@.len() && i != j implies r@[i]
                != r@[j] by {
                assert(r@[i] == sorted@[i] && r@[j] == sorted@[j]);
            }
        }
        r
    }
}


/// Position `i` holds the last post with its slug.
#[verifier::opaque]
pub open spec fn last_of_slug(posts: Seq<PostMetaData>, i: int) -> bool {
    forall|j: int| i < j < posts.len() ==> (#[trigger] posts[j]).slug@ != posts[i].slug@
}

/// `x` is the last of the posts at or after position `k` that has its
/// slug.
pub open spec fn last_post_from(posts: Seq<PostMetaData>, k: int, x: PostMetaData) -> bool {
    exists|m: int| #![trigger posts[m]] k <= m < posts.len() && last_of_slug(posts, m) && posts[m] == x
}

/// Some post of `r` has the slug `slug`.
pub open spec fn slug_listed(r: Seq<PostMetaData>, slug: Seq<char>) -> bool {
    exists|i: int| 0 <= i < r.len() && (#[trigger] r[i]).slug@ == slug
}

/// No two posts share a slug.
pub open spec fn unique_slugs(posts: Seq<PostMetaData>) -> bool {
    forall|i: int, j: int| 0 <= i < j < posts.len() ==> posts[i].slug@ != posts[j].slug@
}

/// Some post carries the tag `t`.
pub open spec fn some_post_tagged(posts: Seq<PostMetaData>, t: Seq<char>) -> bool {
    exists|i: int| 0 <= i < posts.len() && texts((#[trigger] posts[i]).tags@).contains(t)
}

/// The name and slug of a series.
pub open spec fn series_text(s: Series) -> (Seq<char>, Seq<char>) {
    (s.name@, s.slug@)
}

/// The names and slugs of series.
pub open spec fn series_texts(v: Seq<Series>) -> Seq<(Seq<char>, Seq<char>)> {
    v.map_values(|s: Series| series_text(s))
}

/// Some post belongs to the series with this name and slug.
pub open spec fn some_post_in(posts: Seq<PostMetaData>, x: (Seq<char>, Seq<char>)) -> bool {
    exists|i: int| 0 <= i < posts.len() && in_series(#[trigger] posts[i], x)
}

/// The post belongs to the series with this name and slug.
pub open spec fn in_series(p: PostMetaData, x: (Seq<char>, Seq<char>)) -> bool {
    p.series matches Some(s) && series_text(s) == x
}

/// The values of `v` are pairwise different.
pub open spec fn distinct<T>(v: Seq<T>) -> bool {
    forall|i: int, j: int| 0 <= i < j < v.len() ==> v[i] != v[j]
}

/// Copies a series.
fn copy_series(s: &Series) -> (r: Series)
    ensures
        series_text(r) == series_text(*s),
{
    Series { name: s.name.clone(), slug: s.slug.clone() }
}

/// Whether a series with the same name and slug is in `v`.
fn has_series(v: &Vec<Series>, s: &Series) -> (r: bool)
    ensures
        r == series_texts(v@).contains(series_text(*s)),
{
    let name = chars_of(s.name.as_str());
    let slug = chars_of(s.slug.as_str());
    let mut i: usize = 0;
    while i < v.len()
        invariant
            i <= v@.len(),
            name@ == s.name@,
            slug@ == s.slug@,
            forall|j: int| 0 <= j < i ==> series_text(v@[j]) != series_text(*s),
        decreases v@.len() - i,
    {
        if seq_eq(&chars_of(v[i].name.as_str()), &name) && seq_eq(&chars_of(v[i].slug.as_str()), &slug) {
            assert(series_texts(v@)[i as int] == series_text(*s));
            return true;
        }
        i = i + 1;
    }
    proof {
        if series_texts(v@).contains(series_text(*s)) {
            let j = choose|j: int| 0 <= j < series_texts(v@).len() && series_texts(v@)[j] == series_text(*s);
            assert(series_texts(v@)[j] == series_text(v@[j]));
        }
    }
    false
}

impl PostData {
    /// The catalogue of the posts read from the metadata files: one post
    /// per slug (of several with a slug, the last read), the distinct tags
    /// of those posts in code-point order, and the distinct series they
    /// belong to, ordered by slug.
    pub fn new(posts: Vec<PostMetaData>) -> (r: PostData)
        ensures
            unique_slugs(r.posts_view()),
            forall|i: int|
                0 <= i < r.posts_view().len() ==> last_post_from(posts@, 0, #[trigger] r.posts_view()[i]),
            forall|k: int|
                0 <= k < posts@.len() && last_of_slug(posts@, k) ==> r.posts_view().contains(
                    #[trigger] posts@[k],
                ),
            forall|i: int, j: int|
                0 <= i < j < r.tags_view().len() ==> str_le(r.tags_view()[i]@, r.tags_view()[j]@)
                    && r.tags_view()[i]@ != r.tags_view()[j]@,
            forall|t: Seq<char>|
                texts(r.tags_view()).contains(t) <==> some_post_tagged(r.posts_view(), t),
            distinct(series_texts(r.series_view())),
            forall|i: int, j: int|
                0 <= i < j < r.series_view().len() ==> str_le(
                    r.series_view()[i].slug@,
                    r.series_view()[j].slug@,
                ),
            forall|x: (Seq<char>, Seq<char>)|
                series_texts(r.series_view()).contains(x) <==> some_post_in(r.posts_view(), x),
    {
        let metadata = Self::one_per_slug(posts);
        let tags = Self::collect_tags(&metadata);
        let series = Self::collect_series(&metadata);
        let r = PostData { metadata, series, tags };
        assert(r.posts_view() == metadata@);
        assert(r.tags_view() == tags@);
        assert(r.series_view() == series@);
        assert forall|i: int| 0 <= i < r.posts_view().len() implies last_post_from(posts@, 0, #[trigger] r.posts_view()[i]) by {
            assert(r.posts_view()[i] == metadata@[i]);
        }
        r
    }

    /// The last post for each slug.
    fn one_per_slug(posts: Vec<PostMetaData>) -> (r: Vec<PostMetaData>)
        ensures
            unique_slugs(r@),
            forall|i: int| 0 <= i < r@.len() ==> last_post_from(posts@, 0, #[trigger] r@[i]),
            forall|k: int|
                0 <= k < posts@.len() && last_of_slug(posts@, k) ==> r@.contains(#[trigger] posts@[k]),
    {
        let ghost orig = posts@;
        let mut posts = posts;
        let mut r: Vec<PostMetaData> = Vec::new();
        proof {
            reveal(one_per_slug_inv);
            assert(one_per_slug_inv(orig, orig.len() as int, r@));
        }
        while posts.len() > 0
            invariant
                posts@ == orig.take(posts@.len() as int),
                posts@.len() <= orig.len(),
                one_per_slug_inv(orig, posts@.len() as int, r@),
            decreases posts@.len(),
        {
            let ghost k = posts@.len() - 1;
            let p = posts.pop().unwrap();
            assert(p == orig[k]);
            assert(posts@ =~= orig.take(k));
            let mut known = false;
            let mut at: usize = 0;
            let sc = chars_of(p.slug.as_str());
            let mut i: usize = 0;
            while i < r.len()
                invariant
                    i <= r@.len(),
                    sc@ == p.slug@,
                    !known ==> forall|j: int| 0 <= j < i ==> (#[trigger] r@[j]).slug@ != p.slug@,
                    known ==> at < r@.len() && r@[at as int].slug@ == p.slug@,
                decreases r@.len() - i,
            {
                if seq_eq(&chars_of(r[i].slug.as_str()), &sc) {
                    known = true;
                    at = i;
                }
                i = i + 1;
            }
            let ghost before = r@;
            if !known {
                r.push(p);
                proof {
                    lemma_one_per_slug_new(orig, k, before);
                    assert(r@ == before.push(orig[k]));
                }
            } else {
                proof {
                    lemma_one_per_slug_known(orig, k, before, at as int);
                }
            }
        }
        proof {
            reveal(one_per_slug_inv);
            assert(unique_slugs(r@));
            assert(forall|i: int| 0 <= i < r@.len() ==> last_post_from(orig, 0, #[trigger] r@[i]));
            assert(forall|k: int|
                0 <= k < orig.len() && last_of_slug(orig, k) ==> r@.contains(#[trigger] orig[k]));
        }
        r
    }

    /// The distinct tags of the posts, in code-point order.
    fn collect_tags(posts: &Vec<PostMetaData>) -> (r: Vec<String>)
        ensures
            forall|i: int, j: int|
                0 <= i < j < r@.len() ==> str_le(r@[i]@, r@[j]@) && r@[i]@ != r@[j]@,
            forall|t: Seq<char>| texts(r@).contains(t) <==> some_post_tagged(posts@, t),
    {
        let mut all: Vec<String> = Vec::new();
        let mut i: usize = 0;
        while i < posts.len()
            invariant
                i <= posts@.len(),
                distinct(texts(all@)),
                forall|t: Seq<char>|
                    texts(all@).contains(t) <==> some_post_tagged(posts@.take(i as int), t),
            decreases posts@.len() - i,
        {
            let tags = &posts[i].tags;
            let mut j: usize = 0;
            while j < tags.len()
                invariant
                    i < posts@.len(),
                    tags@ == posts@[i as int].tags@,
                    j <= tags@.len(),
                    distinct(texts(all@)),
                    forall|t: Seq<char>|
                        texts(all@).contains(t) <==> (some_post_tagged(posts@.take(i as int), t)
                            || texts(tags@.take(j as int)).contains(t)),
                decreases tags@.len() - j,
            {
                let ghost before = texts(all@);
                let ghost tj = tags@[j as int]@;
                assert(texts(tags@.take(j + 1)) =~= texts(tags@.take(j as int)).push(tj));
                let present = contains_string(&all, tags[j].as_str());
                if !present {
                    all.push(tags[j].clone());
                    assert(texts(all@) =~= before.push(tj));
                    assert forall|a: int, b: int| 0 <= a < b < texts(all@).len() implies texts(all@)[a]
                        != texts(all@)[b] by {
                        if b == before.len() {
                            assert(texts(all@)[a] == before[a]);
                            assert(before.contains(before[a]));
                        } else {
                            assert(texts(all@)[a] == before[a] && texts(all@)[b] == before[b]);
                        }
                    }
                }
                proof {
                    let pi = posts@.take(i as int);
                    lemma_add_if_new(
                        before,
                        texts(all@),
                        tj,
                        texts(tags@.take(j as int)),
                        texts(tags@.take(j + 1)),
                        |t: Seq<char>| some_post_tagged(pi, t),
                    );
                }
                j = j + 1;
            }
            proof {
                assert(tags@.take(tags@.len() as int) =~= tags@);
                assert forall|t: Seq<char>|
                    texts(all@).contains(t) <==> some_post_tagged(posts@.take(i + 1), t) by {
                    lemma_tagged_take_succ(posts@, i as int, t);
                }
            }
            i = i + 1;
        }
        assert(posts@.take(posts@.len() as int) =~= posts@);
        let ghost unsorted = texts(all@);
        let r = sort_strings(all);
        proof {
            broadcast use vstd::seq_lib::group_to_multiset_ensures;

            let s = texts(r@);
            assert forall|t: Seq<char>| s.contains(t) <==> unsorted.contains(t) by {
                assert(s.to_multiset().count(t) == unsorted.to_multiset().count(t));
            }
            unsorted.lemma_multiset_has_no_duplicates();
            assert forall|i: int, j: int| 0 <= i < j < r@.len() implies str_le(r@[i]@, r@[j]@) && r@[i]@
                != r@[j]@ by {
                assert(s[i] == r@[i]@ && s[j] == r@[j]@);
                if s[i] == s[j] {
                    assert(s.to_multiset().count(s[i]) >= 2) by {
                        lemma_count_two(s, i, j);
                    }
                }
            }
        }
        r
    }

    /// The distinct series of the posts, ordered by slug.
    fn collect_series(posts: &Vec<PostMetaData>) -> (r: Vec<Series>)
        ensures
            distinct(series_texts(r@)),
            forall|i: int, j: int| 0 <= i < j < r@.len() ==> str_le(r@[i].slug@, r@[j].slug@),
            forall|x: (Seq<char>, Seq<char>)| series_texts(r@).contains(x) <==> some_post_in(posts@, x),
    {
        let mut all: Vec<Series> = Vec::new();
        let mut i: usize = 0;
        while i < posts.len()
            invariant
                i <= posts@.len(),
                distinct(series_texts(all@)),
                forall|x: (Seq<char>, Seq<char>)|
                    series_texts(all@).contains(x) <==> some_post_in(posts@.take(i as int), x),
            decreases posts@.len() - i,
        {
            let ghost before = series_texts(all@);
            match &posts[i].series {
                Some(s) => {
                    let present = has_series(&all, s);
                    if !present {
                        all.push(copy_series(s));
                        assert(series_texts(all@) =~= before.push(series_text(*s)));
                        assert forall|a: int, b: int| 0 <= a < b < series_texts(all@).len() implies series_texts(
                            all@,
                        )[a] != series_texts(all@)[b] by {
                            if b == before.len() {
                                assert(series_texts(all@)[a] == before[a]);
                                assert(before.contains(before[a]));
                            } else {
                                assert(series_texts(all@)[a] == before[a] && series_texts(all@)[b] == before[b]);
                            }
                        }
                    }
                    proof {
                        let x0 = series_text(*s);
                        let pi = posts@.take(i as int);
                        let e: Seq<(Seq<char>, Seq<char>)> = Seq::empty();
                        assert(e.push(x0) =~= seq![x0]);
                        assert forall|t: (Seq<char>, Seq<char>)| before.contains(t) <==> (some_post_in(pi, t)
                            || e.contains(t)) by {}
                        lemma_add_if_new(before, series_texts(all@), x0, e, e.push(x0), |t: (Seq<char>, Seq<char>)| some_post_in(pi, t));
                        assert forall|x: (Seq<char>, Seq<char>)|
                            series_texts(all@).contains(x) <==> some_post_in(posts@.take(i + 1), x) by {
                            lemma_in_series_take_succ(posts@, i as int, x);
                            assert(e.push(x0).contains(x) <==> x == x0) by {
                                if x == x0 {
                                    assert(e.push(x0)[0] == x0);
                                }
                            }
                        }
                    }
                },
                None => {
                    proof {
                        assert forall|x: (Seq<char>, Seq<char>)|
                            series_texts(all@).contains(x) <==> some_post_in(posts@.take(i + 1), x) by {
                            lemma_in_series_take_succ(posts@, i as int, x);
                        }
                    }
                },
            }
            i = i + 1;
        }
        assert(posts@.take(posts@.len() as int) =~= posts@);
        let mut keys: Vec<Vec<char>> = Vec::new();
        let mut order: Vec<usize> = Vec::new();
        let mut k: usize = 0;
        while k < all.len()
            invariant
                k <= all@.len(),
                keys@.len() == k,
                order@ == Seq::new(k as nat, |q: int| q as usize),
                forall|q: int| 0 <= q < k ==> (#[trigger] keys@[q])@ == all@[q].slug@,
            decreases all@.len() - k,
        {
            keys.push(chars_of(all[k].slug.as_str()));
            order.push(k);
            assert(order@ =~= Seq::new((k + 1) as nat, |q: int| q as usize));
            k = k + 1;
        }
        let sorted = sort_by_keys(&keys, &order, false);
        let mut r: Vec<Series> = Vec::new();
        let mut m: usize = 0;
        while m < sorted.len()
            invariant
                m <= sorted@.len(),
                keys@.len() == all@.len(),
                all_below(sorted@, all@.len()),
                series_texts(r@) == sorted@.take(m as int).map_values(|q: usize| series_text(all@[q as int])),
            decreases sorted@.len() - m,
        {
            let ghost before = series_texts(r@);
            r.push(copy_series(&all[sorted[m]]));
            assert(series_texts(r@) =~= before.push(series_text(all@[sorted@[m as int] as int])));
            m = m + 1;
            assert(sorted@.take(m as int).map_values(|q: usize| series_text(all@[q as int])) =~= sorted@.take(
                m - 1,
            ).map_values(|q: usize| series_text(all@[q as int])).push(series_text(all@[sorted@[m - 1] as int])));
        }
        proof {
            broadcast use vstd::seq_lib::group_to_multiset_ensures;

            let ks = keys@.map_values(|c: Vec<char>| c@);
            assert(sorted@.take(sorted@.len() as int) =~= sorted@);
            let rt = series_texts(r@);
            let at = series_texts(all@);
            assert forall|q: int| 0 <= q < rt.len() implies rt[q] == at[sorted@[q] as int] by {}
            lemma_all_positions_present(sorted@, all@.len() as int);
            assert forall|x: (Seq<char>, Seq<char>)| rt.contains(x) <==> at.contains(x) by {
                if rt.contains(x) {
                    let q = choose|q: int| 0 <= q < rt.len() && rt[q] == x;
                    assert(at[sorted@[q] as int] == x);
                }
                if at.contains(x) {
                    let w = choose|w: int| 0 <= w < at.len() && at[w] == x;
                    assert(sorted@.contains(w as usize));
                    let q = choose|q: int| 0 <= q < sorted@.len() && sorted@[q] == w as usize;
                    assert(rt[q] == x);
                }
            }
            assert forall|a: int, b: int| 0 <= a < b < rt.len() implies rt[a] != rt[b] by {
                let pa = sorted@[a];
                let pb = sorted@[b];
                if pa == pb {
                    assert(sorted@.to_multiset().count(pa) >= 2) by {
                        lemma_count_two(sorted@, a, b);
                    }
                    Seq::new(all@.len() as nat, |q: int| q as usize).lemma_multiset_has_no_duplicates();
                }
            }
            assert forall|a: int, b: int| 0 <= a < b < r@.len() implies str_le(r@[a].slug@, r@[b].slug@) by {
                assert(key_before(ks, sorted@[a], sorted@[b], false));
                assert(ks[sorted@[a] as int] == keys@[sorted@[a] as int]@);
                assert(ks[sorted@[b] as int] == keys@[sorted@[b] as int]@);
                assert(rt[a] == at[sorted@[a] as int]);
                assert(rt[b] == at[sorted@[b] as int]);
            }
        }
        r
    }
}


/// What the posts after position `k` contribute: exactly the last post of
/// each of their slugs, each slug once.
#[verifier::opaque]
pub open spec fn one_per_slug_inv(orig: Seq<PostMetaData>, k: int, r: Seq<PostMetaData>) -> bool {
    &&& unique_slugs(r)
    &&& forall|i: int| 0 <= i < r.len() ==> last_post_from(orig, k, #[trigger] r[i])
    &&& forall|m: int| k <= m < orig.len() && last_of_slug(orig, m) ==> r.contains(#[trigger] orig[m])
    &&& forall|m: int| k <= m < orig.len() ==> slug_listed(r, (#[trigger] orig[m]).slug@)
}

#[verifier::spinoff_prover]
proof fn lemma_one_per_slug_new(orig: Seq<PostMetaData>, k: int, before: Seq<PostMetaData>)
    requires
        0 <= k < orig.len(),
        one_per_slug_inv(orig, k + 1, before),
        forall|j: int| 0 <= j < before.len() ==> (#[trigger] before[j]).slug@ != orig[k].slug@,
    ensures
        one_per_slug_inv(orig, k, before.push(orig[k])),
{
    reveal(one_per_slug_inv);
    let r = before.push(orig[k]);
    lemma_new_is_last(orig, k, before);
    lemma_new_origin(orig, k, before);
    lemma_new_complete(orig, k, before);
    lemma_new_slugs(orig, k, before);
    lemma_new_unique(orig, k, before);
}

proof fn lemma_new_is_last(orig: Seq<PostMetaData>, k: int, before: Seq<PostMetaData>)
    requires
        0 <= k < orig.len(),
        forall|m: int| k + 1 <= m < orig.len() ==> slug_listed(before, (#[trigger] orig[m]).slug@),
        forall|j: int| 0 <= j < before.len() ==> (#[trigger] before[j]).slug@ != orig[k].slug@,
    ensures
        last_of_slug(orig, k),
{
    reveal(last_of_slug);
    assert forall|m: int| k < m < orig.len() implies (#[trigger] orig[m]).slug@ != orig[k].slug@ by {
        assert(slug_listed(before, orig[m].slug@));
        let j = choose|j: int| 0 <= j < before.len() && (#[trigger] before[j]).slug@ == orig[m].slug@;
    }
}

proof fn lemma_new_origin(orig: Seq<PostMetaData>, k: int, before: Seq<PostMetaData>)
    requires
        0 <= k < orig.len(),
        last_of_slug(orig, k),
        forall|i: int| 0 <= i < before.len() ==> last_post_from(orig, k + 1, #[trigger] before[i]),
    ensures
        forall|i: int| 0 <= i < before.push(orig[k]).len() ==> last_post_from(orig, k, #[trigger] before.push(orig[k])[i]),
{
    let r = before.push(orig[k]);
    assert forall|i: int| 0 <= i < r.len() implies last_post_from(orig, k, #[trigger] r[i]) by {
        if i < before.len() {
            assert(r[i] == before[i]);
            assert(last_post_from(orig, k + 1, before[i]));
            let m = choose|m: int| #![trigger orig[m]] k + 1 <= m < orig.len() && last_of_slug(orig, m) && orig[m] == before[i];
            assert(orig[m] == r[i]);
        } else {
            assert(r[i] == orig[k]);
            assert(orig[k] == r[i]);
        }
    }
}

proof fn lemma_new_complete(orig: Seq<PostMetaData>, k: int, before: Seq<PostMetaData>)
    requires
        0 <= k < orig.len(),
        forall|m: int| k + 1 <= m < orig.len() && last_of_slug(orig, m) ==> before.contains(#[trigger] orig[m]),
    ensures
        forall|m: int| k <= m < orig.len() && last_of_slug(orig, m) ==> before.push(orig[k]).contains(#[trigger] orig[m]),
{
    let r = before.push(orig[k]);
    assert forall|m: int| k <= m < orig.len() && last_of_slug(orig, m) implies r.contains(
        #[trigger] orig[m],
    ) by {
        if m == k {
            assert(r[before.len() as int] == orig[k]);
        } else {
            let w = choose|w: int| 0 <= w < before.len() && before[w] == orig[m];
            assert(r[w] == before[w]);
        }
    }
}

proof fn lemma_new_slugs(orig: Seq<PostMetaData>, k: int, before: Seq<PostMetaData>)
    requires
        0 <= k < orig.len(),
        forall|m: int| k + 1 <= m < orig.len() ==> slug_listed(before, (#[trigger] orig[m]).slug@),
    ensures
        forall|m: int| k <= m < orig.len() ==> slug_listed(before.push(orig[k]), (#[trigger] orig[m]).slug@),
{
    let r = before.push(orig[k]);
    assert forall|m: int| k <= m < orig.len() implies slug_listed(r, (#[trigger] orig[m]).slug@) by {
        if m == k {
            assert(r[before.len() as int] == orig[k]);
        } else {
            assert(slug_listed(before, orig[m].slug@));
            let w = choose|w: int| 0 <= w < before.len() && (#[trigger] before[w]).slug@ == orig[m].slug@;
            assert(r[w] == before[w]);
        }
    }
}

proof fn lemma_new_unique(orig: Seq<PostMetaData>, k: int, before: Seq<PostMetaData>)
    requires
        0 <= k < orig.len(),
        unique_slugs(before),
        forall|j: int| 0 <= j < before.len() ==> (#[trigger] before[j]).slug@ != orig[k].slug@,
    ensures
        unique_slugs(before.push(orig[k])),
{
    let r = before.push(orig[k]);
    assert forall|a: int, b: int| 0 <= a < b < r.len() implies r[a].slug@ != r[b].slug@ by {
        if b == before.len() {
            assert(r[a] == before[a]);
        } else {
            assert(r[a] == before[a] && r[b] == before[b]);
        }
    }
}

#[verifier::spinoff_prover]
proof fn lemma_one_per_slug_known(orig: Seq<PostMetaData>, k: int, before: Seq<PostMetaData>, j: int)
    requires
        0 <= k < orig.len(),
        one_per_slug_inv(orig, k + 1, before),
        0 <= j < before.len(),
        before[j].slug@ == orig[k].slug@,
    ensures
        one_per_slug_inv(orig, k, before),
{
    assert(forall|i: int| 0 <= i < before.len() ==> last_post_from(orig, k + 1, #[trigger] before[i])) by {
        reveal(one_per_slug_inv);
    }
    assert(forall|m: int| k + 1 <= m < orig.len() ==> slug_listed(before, (#[trigger] orig[m]).slug@)) by {
        reveal(one_per_slug_inv);
    }
    assert(forall|m: int| k + 1 <= m < orig.len() && last_of_slug(orig, m) ==> before.contains(#[trigger] orig[m])) by {
        reveal(one_per_slug_inv);
    }
    assert(unique_slugs(before)) by {
        reveal(one_per_slug_inv);
    }
    lemma_known_not_last(orig, k, before, j);
    lemma_known_origin(orig, k, before);
    lemma_known_slugs(orig, k, before, j);
    lemma_known_complete(orig, k, before);
    reveal(one_per_slug_inv);
}

proof fn lemma_known_complete(orig: Seq<PostMetaData>, k: int, before: Seq<PostMetaData>)
    requires
        0 <= k < orig.len(),
        !last_of_slug(orig, k),
        forall|m: int| k + 1 <= m < orig.len() && last_of_slug(orig, m) ==> before.contains(#[trigger] orig[m]),
    ensures
        forall|m: int| k <= m < orig.len() && last_of_slug(orig, m) ==> before.contains(#[trigger] orig[m]),
{
}

proof fn lemma_known_not_last(orig: Seq<PostMetaData>, k: int, before: Seq<PostMetaData>, j: int)
    requires
        0 <= k < orig.len(),
        0 <= j < before.len(),
        before[j].slug@ == orig[k].slug@,
        forall|i: int| 0 <= i < before.len() ==> last_post_from(orig, k + 1, #[trigger] before[i]),
    ensures
        !last_of_slug(orig, k),
{
    assert(last_post_from(orig, k + 1, before[j]));
    let m = choose|m: int| #![trigger orig[m]] k + 1 <= m < orig.len() && last_of_slug(orig, m) && orig[m] == before[j];
    assert(orig[m].slug@ == orig[k].slug@);
    reveal(last_of_slug);
}

proof fn lemma_known_origin(orig: Seq<PostMetaData>, k: int, before: Seq<PostMetaData>)
    requires
        0 <= k < orig.len(),
        forall|i: int| 0 <= i < before.len() ==> last_post_from(orig, k + 1, #[trigger] before[i]),
    ensures
        forall|i: int| 0 <= i < before.len() ==> last_post_from(orig, k, #[trigger] before[i]),
{
    assert forall|i: int| 0 <= i < before.len() implies last_post_from(orig, k, #[trigger] before[i]) by {
        assert(last_post_from(orig, k + 1, before[i]));
        let w = choose|w: int| #![trigger orig[w]] k + 1 <= w < orig.len() && last_of_slug(orig, w) && orig[w] == before[i];
        assert(orig[w] == before[i]);
    }
}

proof fn lemma_known_slugs(orig: Seq<PostMetaData>, k: int, before: Seq<PostMetaData>, j: int)
    requires
        0 <= k < orig.len(),
        0 <= j < before.len(),
        before[j].slug@ == orig[k].slug@,
        forall|m: int| k + 1 <= m < orig.len() ==> slug_listed(before, (#[trigger] orig[m]).slug@),
    ensures
        forall|m: int| k <= m < orig.len() ==> slug_listed(before, (#[trigger] orig[m]).slug@),
{
    assert forall|m: int| k <= m < orig.len() implies slug_listed(before, (#[trigger] orig[m]).slug@) by {
        if m == k {
            assert(before[j].slug@ == orig[k].slug@);
        }
    }
}

/// The posts up to and including position `i` carry `t` when those before
/// it do, or it does.
proof fn lemma_tagged_take_succ(posts: Seq<PostMetaData>, i: int, t: Seq<char>)
    requires
        0 <= i < posts.len(),
    ensures
        some_post_tagged(posts.take(i + 1), t) <==> (some_post_tagged(posts.take(i), t) || texts(
            posts[i].tags@,
        ).contains(t)),
{
    let a = posts.take(i + 1);
    let b = posts.take(i);
    if some_post_tagged(a, t) {
        let w = choose|w: int| 0 <= w < a.len() && texts((#[trigger] a[w]).tags@).contains(t);
        if w < i {
            assert(b[w] == a[w]);
        } else {
            assert(a[w] == posts[i]);
        }
    }
    if some_post_tagged(b, t) {
        let w = choose|w: int| 0 <= w < b.len() && texts((#[trigger] b[w]).tags@).contains(t);
        assert(a[w] == b[w]);
    }
    if texts(posts[i].tags@).contains(t) {
        assert(a[i] == posts[i]);
    }
}

/// The posts up to and including position `i` belong to a series when
/// those before it do, or it does.
proof fn lemma_in_series_take_succ(posts: Seq<PostMetaData>, i: int, x: (Seq<char>, Seq<char>))
    requires
        0 <= i < posts.len(),
    ensures
        some_post_in(posts.take(i + 1), x) <==> (some_post_in(posts.take(i), x) || in_series(
            posts[i],
            x,
        )),
{
    let a = posts.take(i + 1);
    let b = posts.take(i);
    if some_post_in(a, x) {
        let w = choose|w: int| 0 <= w < a.len() && in_series(#[trigger] a[w], x);
        if w < i {
            assert(b[w] == a[w]);
        } else {
            assert(a[w] == posts[i]);
        }
    }
    if some_post_in(b, x) {
        let w = choose|w: int| 0 <= w < b.len() && in_series(#[trigger] b[w], x);
        assert(a[w] == b[w]);
    }
    if in_series(posts[i], x) {
        assert(a[i] == posts[i]);
    }
}

/// Adding a value unless it is already there keeps a list equal, as a set,
/// to what a predicate admits together with a growing list.
proof fn lemma_add_if_new<T>(
    before: Seq<T>,
    now: Seq<T>,
    x: T,
    s0: Seq<T>,
    s1: Seq<T>,
    p: spec_fn(T) -> bool,
)
    requires
        s1 == s0.push(x),
        (before.contains(x) && now == before) || (!before.contains(x) && now == before.push(x)),
        forall|t: T| before.contains(t) <==> (p(t) || s0.contains(t)),
    ensures
        forall|t: T| now.contains(t) <==> (p(t) || s1.contains(t)),
{
    assert forall|t: T| now.contains(t) <==> (p(t) || s1.contains(t)) by {
        if s1.contains(t) {
            let w = choose|w: int| 0 <= w < s1.len() && s1[w] == t;
            if w < s0.len() {
                assert(s0[w] == t);
            }
        }
        if s0.contains(t) {
            let w = choose|w: int| 0 <= w < s0.len() && s0[w] == t;
            assert(s1[w] == t);
        }
        assert(s1[s0.len() as int] == x);
        if now.contains(t) && !before.contains(t) {
            let w = choose|w: int| 0 <= w < now.len() && now[w] == t;
            assert(w == before.len());
        }
        if before.contains(t) {
            let w = choose|w: int| 0 <= w < before.len() && before[w] == t;
            assert(now[w] == t);
        }
        if !before.contains(x) {
            assert(now[before.len() as int] == x);
        }
    }
}

/// A value at two positions is counted at least twice.
proof fn lemma_count_two<T>(s: Seq<T>, i: int, j: int)
    requires
        0 <= i < j < s.len(),
        s[i] == s[j],
    ensures
        s.to_multiset().count(s[i]) >= 2,
{
    broadcast use vstd::seq_lib::group_to_multiset_ensures;

    let t = s.remove(j);
    assert(t[i] == s[i]);
    assert(t.contains(s[i]));
    assert(t.to_multiset().count(s[i]) >= 1);
    assert(s.to_multiset().remove(s[j]) == t.to_multiset());
}

/// The filtered positions are exactly those below `n` whose posts pass.
proof fn lemma_matching_contains(posts: Seq<PostMetaData>, f: PostsFilters, search: bool, n: int)
    requires
        0 <= n <= posts.len(),
        posts.len() <= usize::MAX,
    ensures
        forall|i: usize|
            #[trigger] matching(posts, f, search, n).contains(i) <==> (i < n && kept_by(
                f,
                posts[i as int],
            ) && (!search || search_ok(f, posts[i as int]))),
    decreases n,
{
    if n > 0 {
        lemma_matching_contains(posts, f, search, n - 1);
        let before = matching(posts, f, search, n - 1);
        let p = posts[n - 1];
        if kept_by(f, p) && (!search || search_ok(f, p)) {
            let after = before.push((n - 1) as usize);
            assert forall|i: usize| #[trigger] after.contains(i) <==> (before.contains(i)
                || i == n - 1) by {
                if after.contains(i) {
                    let w = choose|w: int| 0 <= w < after.len() && after[w] == i;
                    if w < before.len() {
                        assert(before[w] == i);
                    }
                }
                if before.contains(i) {
                    let w = choose|w: int| 0 <= w < before.len() && before[w] == i;
                    assert(after[w] == i);
                }
                if i == n - 1 {
                    assert(after[before.len() as int] == i);
                }
            }
        }
    }
}

/// A post is listed by the browser exactly when it passes the filters: it
/// is in the filtered series, carries every filtered tag, and its title
/// contains the search.
pub proof fn law_listed_iff_shown(posts: Seq<PostMetaData>, f: PostsFilters, listed: Seq<usize>)
    requires
        posts.len() <= usize::MAX,
        listed.to_multiset() == matching(posts, f, true, posts.len() as int).to_multiset(),
    ensures
        forall|i: usize|
            #[trigger] listed.contains(i) <==> (i < posts.len() && shown_by(f, posts[i as int])),
{
    broadcast use vstd::seq_lib::group_to_multiset_ensures;

    lemma_matching_contains(posts, f, true, posts.len() as int);
    let m = matching(posts, f, true, posts.len() as int);
    assert forall|i: usize| #[trigger] listed.contains(i) <==> (i < posts.len() && shown_by(f, posts[i as int])) by {
        assert(listed.contains(i) <==> listed.to_multiset().count(i) > 0);
        assert(m.contains(i) <==> m.to_multiset().count(i) > 0);
        assert(m.contains(i) <==> (i < posts.len() && kept_by(f, posts[i as int]) && search_ok(f, posts[i as int])));
    }
}

/// Without filters, every position passes, in order.
proof fn lemma_matching_all(posts: Seq<PostMetaData>, f: PostsFilters, n: int)
    requires
        f.tag@.len() == 0,
        f.series is None,
        0 <= n <= posts.len(),
    ensures
        matching(posts, f, false, n) == Seq::new(n as nat, |i: int| i as usize),
    decreases n,
{
    if n > 0 {
        lemma_matching_all(posts, f, n - 1);
        assert(Seq::new((n - 1) as nat, |i: int| i as usize).push((n - 1) as usize) =~= Seq::new(
            n as nat,
            |i: int| i as usize,
        ));
    }
}

/// A reordering of all positions below `n` holds each of them.
proof fn lemma_all_positions_present(s: Seq<usize>, n: int)
    requires
        0 <= n,
        s.to_multiset() == Seq::new(n as nat, |i: int| i as usize).to_multiset(),
    ensures
        forall|j: usize| j < n ==> #[trigger] s.contains(j),
{
    broadcast use vstd::seq_lib::group_to_multiset_ensures;

    let all = Seq::new(n as nat, |i: int| i as usize);
    assert forall|j: usize| j < n implies #[trigger] s.contains(j) by {
        assert(all[j as int] == j);
        assert(all.contains(j));
        assert(s.to_multiset().count(j) > 0);
    }
}

/// A reordering of all positions below `n` holds each of them once.
proof fn lemma_all_positions_distinct(s: Seq<usize>, n: int)
    requires
        0 <= n <= usize::MAX,
        s.to_multiset() == Seq::new(n as nat, |i: int| i as usize).to_multiset(),
    ensures
        s.no_duplicates(),
{
    let all = Seq::new(n as nat, |i: int| i as usize);
    assert forall|i: int, j: int| 0 <= i < all.len() && 0 <= j < all.len() && i != j implies all[i]
        != all[j] by {
        assert(all[i] == i as usize && all[j] == j as usize);
    }
    all.lemma_multiset_has_no_duplicates();
    s.lemma_multiset_has_no_duplicates_conv();
}

/// The browser lists a post exactly when the post carries every filtered
/// tag, belongs to the filtered series if one is asked for, and, with the
/// title search, passes it: a post missing one of the ticked tags is never
/// listed, and one carrying them all is never left out.
pub proof fn law_listed_posts_carry_every_tag(
    posts: Seq<PostMetaData>,
    f: PostsFilters,
    search: bool,
    listed: Seq<usize>,
)
    requires
        posts.len() <= usize::MAX,
        listed.to_multiset() == matching(posts, f, search, posts.len() as int).to_multiset(),
    ensures
        forall|i: usize|
            #[trigger] listed.contains(i) <==> {
                &&& i < posts.len()
                &&& forall|t: int|
                    0 <= t < f.tag@.len() ==> posts[i as int].tags@.map_values(|s: String| s@).contains(
                        #[trigger] f.tag@[t]@,
                    )
                &&& f.series matches Some(s) ==> (posts[i as int].series matches Some(ps)
                    && ps.slug@ == s@)
                &&& search ==> search_ok(f, posts[i as int])
            },
{
    broadcast use vstd::seq_lib::group_to_multiset_ensures;

    lemma_matching_contains(posts, f, search, posts.len() as int);
    let m = matching(posts, f, search, posts.len() as int);
    assert forall|i: usize| #[trigger] listed.contains(i) <==> {
        &&& i < posts.len()
        &&& forall|t: int|
            0 <= t < f.tag@.len() ==> posts[i as int].tags@.map_values(|s: String| s@).contains(
                #[trigger] f.tag@[t]@,
            )
        &&& f.series matches Some(s) ==> (posts[i as int].series matches Some(ps) && ps.slug@
            == s@)
        &&& search ==> search_ok(f, posts[i as int])
    } by {
        assert(listed.contains(i) <==> listed.to_multiset().count(i) > 0);
        assert(m.contains(i) <==> m.to_multiset().count(i) > 0);
    }
}

/// Of the search hits, the browser keeps, in the index's order, exactly
/// those whose posts carry every filtered tag and belong to the filtered
/// series if one is asked for.
pub proof fn law_found_posts_carry_every_tag(
    posts: Seq<PostMetaData>,
    f: PostsFilters,
    hits: Seq<usize>,
)
    requires
        all_below(hits, posts.len()),
    ensures
        forall|k: int|
            0 <= k < kept_positions(posts, f, hits).len() ==> {
                let p = posts[#[trigger] kept_positions(posts, f, hits)[k] as int];
                &&& hits.contains(kept_positions(posts, f, hits)[k])
                &&& forall|t: int|
                    0 <= t < f.tag@.len() ==> p.tags@.map_values(|s: String| s@).contains(
                        #[trigger] f.tag@[t]@,
                    )
                &&& f.series matches Some(s) ==> (p.series matches Some(ps) && ps.slug@ == s@)
            },
        forall|j: int|
            0 <= j < hits.len() && (forall|t: int|
                0 <= t < f.tag@.len() ==> posts[#[trigger] hits[j] as int].tags@.map_values(
                    |s: String| s@,
                ).contains(#[trigger] f.tag@[t]@)) && (f.series matches Some(s) ==> (
            posts[hits[j] as int].series matches Some(ps) && ps.slug@ == s@)) ==> kept_positions(
                posts,
                f,
                hits,
            ).contains(hits[j]),
    decreases hits.len(),
{
    if hits.len() > 0 {
        let d = hits.drop_last();
        law_found_posts_carry_every_tag(posts, f, d);
        let before = kept_positions(posts, f, d);
        let kp = kept_positions(posts, f, hits);
        assert forall|k: int| 0 <= k < before.len() implies hits.contains(#[trigger] before[k]) by {
            assert(d.contains(before[k]));
            let q = choose|q: int| 0 <= q < d.len() && d[q] == before[k];
            assert(hits[q] == d[q]);
        }
        assert forall|j: int|
            0 <= j < hits.len() && (forall|t: int|
                0 <= t < f.tag@.len() ==> posts[#[trigger] hits[j] as int].tags@.map_values(
                    |s: String| s@,
                ).contains(#[trigger] f.tag@[t]@)) && (f.series matches Some(s) ==> (
            posts[hits[j] as int].series matches Some(ps) && ps.slug@ == s@)) implies kp.contains(
            hits[j],
        ) by {
            if j < d.len() {
                assert(d[j] == hits[j]);
                assert(before.contains(d[j]));
                let q = choose|q: int| 0 <= q < before.len() && before[q] == d[j];
                assert(kp[q] == before[q]);
            } else {
                assert(kept_by(f, posts[hits.last() as int]));
                assert(kp[before.len() as int] == hits.last());
            }
        }
        assert forall|k: int| 0 <= k < kp.len() implies hits.contains(#[trigger] kp[k]) by {
            if k < before.len() {
                assert(kp[k] == before[k]);
                assert(hits.contains(before[k]));
            } else {
                assert(hits[hits.len() - 1] == kp[k]);
            }
        }
    }
}

/// Positions sorted by publication date, descending, list a post no
/// earlier than every post after it.
proof fn lemma_newest_first(posts: Seq<PostMetaData>, r: Seq<usize>)
    requires
        all_below(r, posts.len()),
        sorted_by_keys(published_keys(posts), r, true),
    ensures
        forall|i: int, j: int|
            #![trigger r[i], r[j]]
            0 <= i < j < r.len() ==> str_le(posts[r[j] as int].published@, posts[r[i] as int].published@),
{
    assert forall|i: int, j: int|
        #![trigger r[i], r[j]]
        0 <= i < j < r.len() implies str_le(posts[r[j] as int].published@, posts[r[i] as int].published@) by {
        assert(key_before(published_keys(posts), r[i], r[j], true));
    }
}

} // verus!
