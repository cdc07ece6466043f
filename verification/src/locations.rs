//! Where the build pipeline reads and writes: the outputs made from each
//! source, the recorded input hashes, and the public key under which an
//! output is served.
use vstd::prelude::*;

use crate::paths::{
    components_chars, components_of, file_name, file_name_of, join, join_of, joined, push_all,
    seq_eq, stem_of, with_extension, with_extension_of, path_extension_of,
    has_extension, stem_chars, with_extension_chars,
};
use crate::paths_lemmas::lemma_stem_dot_extension;
use crate::text::{chars_of, slice_of, string_of};

verus! {

/// Where the hash of a build input is recorded: the input's file name, with
/// the extension `hash`, in the directory of the step that consumed it.
pub fn input_hash_path(step: &str, path: &str) -> (r: String)
    requires
        file_name_of(path@) is Some,
    ensures
        r@ == with_extension_of(
            join_of(join_of("./generated/repertoire/"@, step@), file_name_of(path@)->0),
            "hash"@,
        ),
{
    let name = file_name(path).unwrap();
    let dir = join("./generated/repertoire/", step);
    let base = join(dir.as_str(), name.as_str());
    with_extension(base.as_str(), "hash")
}

/// A component that the public key of an output leaves out.
pub open spec fn is_skipped_part(c: Seq<char>) -> bool {
    c == "."@ || c == "generated"@ || c == "pages"@ || c == "static"@
}

/// The components that the public key keeps, in order.
pub open spec fn kept_parts(cs: Seq<Seq<char>>) -> Seq<Seq<char>>
    decreases cs.len(),
{
    if cs.len() == 0 {
        Seq::empty()
    } else if is_skipped_part(cs.last()) {
        kept_parts(cs.drop_last())
    } else {
        kept_parts(cs.drop_last()).push(cs.last())
    }
}

/// The key under which an output is served and tagged: the output path
/// without its extension, with `.`, `generated`, `pages` and `static`
/// components dropped, joined by `/` after a leading `/`.
pub open spec fn etag_key_of(p: Seq<char>) -> Seq<char> {
    "/"@ + joined(kept_parts(components_of(with_extension_of(p, Seq::empty()))), "/"@)
}

/// The public key keeps, in order, exactly the components other than `.`,
/// `generated`, `pages` and `static`: every other directory, such as
/// `img` or `posts`, stays in the key.
pub proof fn law_kept_parts(cs: Seq<Seq<char>>)
    ensures
        kept_parts(cs) == cs.filter(
            |c: Seq<char>| c != "."@ && c != "generated"@ && c != "pages"@ && c != "static"@,
        ),
    decreases cs.len(),
{
    reveal(Seq::filter);
    if cs.len() > 0 {
        law_kept_parts(cs.drop_last());
    }
}

fn is_skipped(c: &Vec<char>) -> (r: bool)
    ensures
        r == is_skipped_part(c@),
{
    proof {
        reveal_strlit(".");
        reveal_strlit("generated");
        reveal_strlit("pages");
        reveal_strlit("static");
    }
    seq_eq(c, &chars_of(".")) || seq_eq(c, &chars_of("generated")) || seq_eq(c, &chars_of("pages"))
        || seq_eq(c, &chars_of("static"))
}

/// The key under which the output at `path` is served and tagged.
pub fn etag_key(path: &str) -> (r: String)
    ensures
        r@ == etag_key_of(path@),
        r@ == "/"@ + joined(
            components_of(with_extension_of(path@, Seq::empty())).filter(
                |c: Seq<char>| c != "."@ && c != "generated"@ && c != "pages"@ && c != "static"@,
            ),
            "/"@,
        ),
{
    let p = chars_of(path);
    let none: Vec<char> = Vec::new();
    let stripped = with_extension_chars(&p, &none);
    let cs = components_chars(&stripped);
    let ghost parts = cs@.map_values(|v: Vec<char>| v@);
    let mut body: Vec<char> = Vec::new();
    let mut any = false;
    let mut i: usize = 0;
    while i < cs.len()
        invariant
            i <= cs@.len(),
            parts == cs@.map_values(|v: Vec<char>| v@),
            body@ == joined(kept_parts(parts.take(i as int)), "/"@),
            any == (kept_parts(parts.take(i as int)).len() > 0),
        decreases cs.len() - i,
    {
        proof {
            reveal_strlit("/");
        }
        let ghost before = parts.take(i as int);
        assert(parts.take(i + 1).drop_last() =~= before);
        assert(parts.take(i + 1).last() == cs@[i as int]@);
        if !is_skipped(&cs[i]) {
            if any {
                body.push('/');
            }
            push_all(&mut body, &cs[i]);
            any = true;
            let ghost k = kept_parts(before);
            assert(kept_parts(parts.take(i + 1)) == k.push(cs@[i as int]@));
            assert(k.push(cs@[i as int]@).drop_last() =~= k);
            proof {
                if k.len() > 0 {
                    assert(body@ =~= joined(k, "/"@) + "/"@ + cs@[i as int]@);
                } else {
                    assert(body@ =~= cs@[i as int]@);
                }
            }
        }
        i = i + 1;
    }
    assert(parts.take(cs@.len() as int) =~= parts);
    let mut r: Vec<char> = Vec::new();
    r.push('/');
    push_all(&mut r, &body);
    proof {
        reveal_strlit("/");
        assert(r@ =~= "/"@ + body@);
        law_kept_parts(parts);
    }
    string_of(r.as_slice())
}

/// The name of a file without its extension, when the path has
/// the extension `md`: the slug of a post written in that file.
pub fn post_slug(path: &str) -> (r: Option<String>)
    ensures
        r is Some <==> path_extension_of(path@) == Some("md"@),
        r matches Some(s) ==> s@ == stem_of(file_name_of(path@)->0) && file_name_of(path@)->0
            == s@ + ".md"@,
{
    if has_extension(path, "md") {
        let name = file_name(path).unwrap();
        let n = chars_of(name.as_str());
        let stem = stem_chars(&n);
        proof {
            reveal_strlit("md");
            reveal_strlit(".md");
            lemma_stem_dot_extension(n@);
            assert(stem@ + seq!['.'] + "md"@ =~= stem@ + ".md"@);
        }
        Some(string_of(stem.as_slice()))
    } else {
        None
    }
}

/// The rendered page made from a page source.
pub fn page_output(source: &str) -> (r: String)
    requires
        file_name_of(source@) is Some,
    ensures
        r@ == with_extension_of(join_of("./generated/pages/"@, file_name_of(source@)->0), "html"@),
{
    let name = file_name(source).unwrap();
    let base = join("./generated/pages/", name.as_str());
    with_extension(base.as_str(), "html")
}

/// The copy of an image made from an image source.
pub fn image_output(source: &str) -> (r: String)
    requires
        file_name_of(source@) is Some,
    ensures
        r@ == join_of("./generated/img"@, file_name_of(source@)->0),
{
    let name = file_name(source).unwrap();
    join("./generated/img", name.as_str())
}

/// The output with extension `ext` made from a post source: the rendered
/// post (`html`), its plain text (`txt`) and its metadata (`yml`).
pub fn post_output(source: &str, ext: &str) -> (r: String)
    requires
        file_name_of(source@) is Some,
    ensures
        r@ == with_extension_of(join_of("./generated/posts/"@, file_name_of(source@)->0), ext@),
{
    let name = file_name(source).unwrap();
    let base = join("./generated/posts/", name.as_str());
    with_extension(base.as_str(), ext)
}

/// All outputs made from a post source, in the order html, txt, yml.
pub fn post_outputs(source: &str) -> (r: Vec<String>)
    requires
        file_name_of(source@) is Some,
    ensures
        r@.len() == 3,
        r@[0]@ == with_extension_of(join_of("./generated/posts/"@, file_name_of(source@)->0), "html"@),
        r@[1]@ == with_extension_of(join_of("./generated/posts/"@, file_name_of(source@)->0), "txt"@),
        r@[2]@ == with_extension_of(join_of("./generated/posts/"@, file_name_of(source@)->0), "yml"@),
{
    let mut r: Vec<String> = Vec::new();
    r.push(post_output(source, "html"));
    r.push(post_output(source, "txt"));
    r.push(post_output(source, "yml"));
    r
}

/// The table of contents rendered for a post source: the source's name
/// without extension, followed by `-toc`, as an `html` file among the posts.
pub fn toc_output(source: &str) -> (r: String)
    requires
        file_name_of(with_extension_of(source@, Seq::empty())) is Some,
    ensures
        r@ == with_extension_of(
            join_of(
                "./generated/posts/"@,
                file_name_of(with_extension_of(source@, Seq::empty()))->0 + "-toc"@,
            ),
            "html"@,
        ),
{
    let bare = with_extension(source, "");
    assert(""@ =~= Seq::<char>::empty()) by {
        reveal_strlit("");
    }
    let name = file_name(bare.as_str()).unwrap();
    let mut toc = name;
    toc.append("-toc");
    let base = join("./generated/posts/", toc.as_str());
    with_extension(base.as_str(), "html")
}

/// The rendered body of the post with the given slug.
pub fn post_page_path(slug: &str) -> (r: String)
    ensures
        r@ == with_extension_of(join_of("./generated/posts"@, slug@), "html"@),
{
    let base = join("./generated/posts", slug);
    with_extension(base.as_str(), "html")
}

/// The rendered table of contents of the post with the given slug.
pub fn post_toc_path(slug: &str) -> (r: String)
    ensures
        r@ == with_extension_of(join_of("./generated/posts"@, slug@ + "-toc"@), "html"@),
{
    let mut toc = slug.to_string();
    toc.append("-toc");
    let base = join("./generated/posts", toc.as_str());
    with_extension(base.as_str(), "html")
}

/// `s` ends with `suffix`.
pub open spec fn ends_with(s: Seq<char>, suffix: Seq<char>) -> bool {
    suffix.len() <= s.len() && s.skip(s.len() - suffix.len()) == suffix
}

/// Whether the file name of `path` ends with `suffix`: how a step picks
/// the files of a directory it reads.
pub fn name_ends_with(path: &str, suffix: &str) -> (r: bool)
    requires
        file_name_of(path@) is Some,
    ensures
        r == ends_with(file_name_of(path@)->0, suffix@),
{
    let name = chars_of(file_name(path).unwrap().as_str());
    let sx = chars_of(suffix);
    if sx.len() > name.len() {
        return false;
    }
    let tail = slice_of(&name, name.len() - sx.len(), name.len());
    assert(tail@ =~= name@.skip(name@.len() - sx@.len()));
    seq_eq(&tail, &sx)
}

} // verus!
