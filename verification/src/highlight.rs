//! Syntax highlighting of the code blocks of a post: the block's first
//! class names its language, and the highlighted code is wrapped in a
//! `pre`/`code` pair that keeps the block's classes.
use vstd::prelude::*;

use syntect::html::{ClassStyle, ClassedHTMLGenerator};
use syntect::parsing::{SyntaxReference, SyntaxSet};

use crate::metadata::{opt_text, texts};
use crate::paths::{joined, push_all};
use crate::text::{chars_of, string_of};

verus! {

#[verifier::external_type_specification]
#[verifier::external_body]
pub struct ExSyntaxSet(SyntaxSet);

#[verifier::external_type_specification]
#[verifier::external_body]
pub struct ExSyntaxReference(SyntaxReference);

#[verifier::external_type_specification]
#[verifier::external_body]
pub struct ExClassedHTMLGenerator<'a>(ClassedHTMLGenerator<'a>);

#[verifier::external_type_specification]
#[verifier::external_body]
pub struct ExSyntectError(syntect::Error);

/// Calls `syntect::parsing::SyntaxSet::load_defaults_newlines`: the
/// crate's bundled syntaxes, for lines that keep their line break. The set
/// is opaque; what the lookups below find in it is named.
#[verifier::external_body]
fn load_syntaxes() -> SyntaxSet {
    SyntaxSet::load_defaults_newlines()
}

/// The bundled syntaxes have a syntax with `language` as a file extension.
pub uninterp spec fn syntax_found_by_extension(language: Seq<char>) -> bool;

/// The bundled syntaxes have a syntax with `language` as its name.
pub uninterp spec fn syntax_found_by_name(language: Seq<char>) -> bool;

/// Whether the generator for the syntax that `language` selects (by name
/// when `by_name`, else by extension), with classes prefixed by `prefix`,
/// fails on `line` after it was fed the lines `fed`.
pub uninterp spec fn line_fails(
    language: Seq<char>,
    by_name: bool,
    prefix: Seq<char>,
    fed: Seq<Seq<char>>,
    line: Seq<char>,
) -> bool;

/// The classed markup that the generator for the syntax that `language`
/// selects (by name when `by_name`, else by extension), with classes
/// prefixed by `prefix`, makes of the lines `lines`.
pub uninterp spec fn highlighted_of(
    language: Seq<char>,
    by_name: bool,
    prefix: Seq<char>,
    lines: Seq<Seq<char>>,
) -> Seq<char>;

/// A syntax of a highlighter's set, with the language it was looked up by
/// and whether it was found by name.
pub struct FoundSyntax<'a> {
    reference: &'a SyntaxReference,
    language: Ghost<Seq<char>>,
    by_name: Ghost<bool>,
}

/// A generator of classed markup, with the syntax it highlights, the class
/// prefix and the lines fed to it so far.
pub struct HtmlGenerator<'a> {
    inner: ClassedHTMLGenerator<'a>,
    language: Ghost<Seq<char>>,
    by_name: Ghost<bool>,
    prefix: Ghost<Seq<char>>,
    fed: Ghost<Seq<Seq<char>>>,
}

/// Calls `SyntaxSet::find_syntax_by_extension` on the highlighter's set,
/// which only `Highlighter::new` fills, with the bundled syntaxes. Claimed:
/// a syntax is found exactly when the bundled set has `extension` as an
/// extension (named `syntax_found_by_extension`).
#[verifier::external_body]
fn find_syntax_by_extension<'a>(h: &'a Highlighter, extension: &str) -> (r: Option<FoundSyntax<'a>>)
    ensures
        r is Some <==> syntax_found_by_extension(extension@),
        r matches Some(s) ==> s.language@ == extension@ && !s.by_name@,
{
    match h.set.find_syntax_by_extension(extension) {
        Some(reference) => Some(FoundSyntax { reference, language: Ghost(extension@), by_name: Ghost(false) }),
        None => None,
    }
}

/// Calls `SyntaxSet::find_syntax_by_name` on the highlighter's set, which
/// only `Highlighter::new` fills, with the bundled syntaxes. Claimed: a
/// syntax is found exactly when the bundled set has a syntax named `name`
/// (named `syntax_found_by_name`).
#[verifier::external_body]
fn find_syntax_by_name<'a>(h: &'a Highlighter, name: &str) -> (r: Option<FoundSyntax<'a>>)
    ensures
        r is Some <==> syntax_found_by_name(name@),
        r matches Some(s) ==> s.language@ == name@ && s.by_name@,
{
    match h.set.find_syntax_by_name(name) {
        Some(reference) => Some(FoundSyntax { reference, language: Ghost(name@), by_name: Ghost(true) }),
        None => None,
    }
}

/// Calls `ClassedHTMLGenerator::new_with_class_style` with the syntax, the
/// highlighter's set and `ClassStyle::SpacedPrefixed` with `prefix`.
/// Claimed: a generator for that syntax and prefix that has been fed
/// nothing.
#[verifier::external_body]
fn new_generator<'a>(h: &'a Highlighter, syntax: FoundSyntax<'a>, prefix: &'static str) -> (r: HtmlGenerator<'a>)
    ensures
        r.language@ == syntax.language@,
        r.by_name@ == syntax.by_name@,
        r.prefix@ == prefix@,
        r.fed@ == Seq::<Seq<char>>::empty(),
{
    HtmlGenerator {
        inner: ClassedHTMLGenerator::new_with_class_style(syntax.reference, &h.set, ClassStyle::SpacedPrefixed { prefix }),
        language: syntax.language,
        by_name: syntax.by_name,
        prefix: Ghost(prefix@),
        fed: Ghost(Seq::empty()),
    }
}

/// Calls `ClassedHTMLGenerator::parse_html_for_line_which_includes_newline`.
/// Claimed: it fails exactly as `line_fails` names for the generator's
/// syntax, prefix and the lines fed so far; on success the line is fed,
/// and on failure the generator is dropped.
#[verifier::external_body]
fn parse_line<'a>(g: HtmlGenerator<'a>, line: &str) -> (r: Result<HtmlGenerator<'a>, syntect::Error>)
    ensures
        r is Err <==> line_fails(g.language@, g.by_name@, g.prefix@, g.fed@, line@),
        r matches Ok(n) ==> n.language@ == g.language@ && n.by_name@ == g.by_name@ && n.prefix@
            == g.prefix@ && n.fed@ == g.fed@.push(line@),
{
    let mut g = g;
    match g.inner.parse_html_for_line_which_includes_newline(line) {
        Ok(()) => Ok(HtmlGenerator { fed: Ghost(g.fed@.push(line@)), ..g }),
        Err(e) => Err(e),
    }
}

/// Calls `ClassedHTMLGenerator::finalize`. Claimed: the markup of the lines
/// fed, named `highlighted_of` of the generator's syntax and prefix.
#[verifier::external_body]
fn finalize(g: HtmlGenerator<'_>) -> (r: String)
    ensures
        r@ == highlighted_of(g.language@, g.by_name@, g.prefix@, g.fed@),
{
    g.inner.finalize()
}

/// The pieces finished so far and the piece in progress, each piece ending
/// right after a line break.
pub open spec fn pieces_state(s: Seq<char>) -> (Seq<Seq<char>>, Seq<char>)
    decreases s.len(),
{
    if s.len() == 0 {
        (Seq::empty(), Seq::empty())
    } else {
        let (done, cur) = pieces_state(s.drop_last());
        if s.last() == '\n' {
            (done.push(cur.push('\n')), Seq::empty())
        } else {
            (done, cur.push(s.last()))
        }
    }
}

/// The lines of `s` with their line breaks, as
/// `syntect::util::LinesWithEndings` gives them.
pub open spec fn lines_with_endings_of(s: Seq<char>) -> Seq<Seq<char>> {
    let (done, cur) = pieces_state(s);
    if cur.len() > 0 {
        done.push(cur)
    } else {
        done
    }
}

proof fn lemma_pieces_state(s: Seq<char>)
    ensures
        ({
            let (done, cur) = pieces_state(s);
            &&& done.flatten_alt() + cur == s
            &&& forall|i: int| 0 <= i < done.len() ==> (#[trigger] done[i]).len() > 0 && done[i].last() == '\n'
            &&& forall|i: int, k: int|
                0 <= i < done.len() && 0 <= k < done[i].len() - 1 ==> #[trigger] done[i][k] != '\n'
            &&& forall|k: int| 0 <= k < cur.len() ==> #[trigger] cur[k] != '\n'
        }),
    decreases s.len(),
{
    if s.len() > 0 {
        let d = s.drop_last();
        lemma_pieces_state(d);
        let (done, cur) = pieces_state(d);
        assert(d + seq![s.last()] =~= s);
        if s.last() == '\n' {
            let nd = done.push(cur.push('\n'));
            assert(nd.drop_last() =~= done);
            assert(nd.flatten_alt() == done.flatten_alt() + cur.push('\n'));
            assert(done.flatten_alt() + cur.push('\n') + Seq::<char>::empty() =~= s);
            assert forall|i: int, k: int|
                0 <= i < nd.len() && 0 <= k < nd[i].len() - 1 implies #[trigger] nd[i][k] != '\n' by {
                if i < done.len() {
                    assert(nd[i] == done[i]);
                } else {
                    assert(nd[i][k] == cur[k]);
                }
            }
        } else {
            assert(done.flatten_alt() + cur.push(s.last()) =~= s);
        }
    }
}

/// The lines of a text, each with its line break, are what the text is
/// made of: joined they give the text again, none is empty, a line break
/// only ends a line, and every line but the last ends with one.
pub proof fn law_lines_with_endings(s: Seq<char>)
    ensures
        lines_with_endings_of(s).flatten() == s,
        forall|i: int|
            0 <= i < lines_with_endings_of(s).len() ==> (#[trigger] lines_with_endings_of(s)[i]).len()
                > 0,
        forall|i: int, k: int|
            0 <= i < lines_with_endings_of(s).len() && 0 <= k < lines_with_endings_of(s)[i].len() - 1
                ==> #[trigger] lines_with_endings_of(s)[i][k] != '\n',
        forall|i: int|
            0 <= i < lines_with_endings_of(s).len() - 1 ==> (#[trigger] lines_with_endings_of(
                s,
            )[i]).last() == '\n',
{
    lemma_pieces_state(s);
    let (done, cur) = pieces_state(s);
    let l = lines_with_endings_of(s);
    if cur.len() > 0 {
        assert(l.drop_last() =~= done);
        assert(l.flatten_alt() == done.flatten_alt() + cur);
        assert forall|i: int, k: int|
            0 <= i < l.len() && 0 <= k < l[i].len() - 1 implies #[trigger] l[i][k] != '\n' by {
            if i < done.len() {
                assert(l[i] == done[i]);
            } else {
                assert(l[i][k] == cur[k]);
            }
        }
    } else {
        assert(done.flatten_alt() + cur =~= done.flatten_alt());
    }
    l.lemma_flatten_and_flatten_alt_are_equivalent();
}

/// The lines of a text, each with its line break.
pub fn lines_with_endings(text: &str) -> (r: Vec<String>)
    ensures
        texts(r@) == lines_with_endings_of(text@),
{
    let s = chars_of(text);
    let mut done: Vec<String> = Vec::new();
    let mut cur: Vec<char> = Vec::new();
    let mut i: usize = 0;
    while i < s.len()
        invariant
            i <= s@.len(),
            s@ == text@,
            pieces_state(s@.take(i as int)) == (texts(done@), cur@),
        decreases s@.len() - i,
    {
        let c = s[i];
        assert(s@.take(i + 1).drop_last() =~= s@.take(i as int));
        assert(s@.take(i + 1).last() == c);
        cur.push(c);
        if c == '\n' {
            let ghost d0 = texts(done@);
            let line = string_of(cur.as_slice());
            done.push(line);
            assert(texts(done@) =~= d0.push(cur@));
            cur = Vec::new();
        }
        i = i + 1;
    }
    assert(s@.take(s@.len() as int) =~= s@);
    if cur.len() > 0 {
        let ghost d0 = texts(done@);
        let line = string_of(cur.as_slice());
        done.push(line);
        assert(texts(done@) =~= d0.push(cur@));
    }
    done
}

/// The markup a highlighted code block becomes: a `pre` carrying the
/// block's classes, if any, around a `code` marked with the block's
/// language, holding the highlighted code and a final line break.
pub open spec fn code_block_html_of(classes: Seq<Seq<char>>, code: Seq<char>) -> Seq<char> {
    let joined_classes = joined(classes, " "@);
    "<pre"@ + (if joined_classes.len() > 0 {
        " class=\""@ + joined_classes + "\""@
    } else {
        Seq::empty()
    }) + "><code class=\""@ + "language-"@ + classes[0] + "\">"@ + code + "\n</code></pre>"@
}

/// `parts` joined by single spaces.
fn join_spaced(parts: &Vec<String>) -> (r: Vec<char>)
    ensures
        r@ == joined(texts(parts@), " "@),
{
    let ghost t = texts(parts@);
    let mut out: Vec<char> = Vec::new();
    let mut i: usize = 0;
    while i < parts.len()
        invariant
            i <= parts@.len(),
            t == texts(parts@),
            out@ == joined(t.take(i as int), " "@),
        decreases parts@.len() - i,
    {
        proof {
            reveal_strlit(" ");
        }
        let ghost prev = t.take(i as int);
        assert(t.take(i + 1) =~= prev.push(t[i as int]));
        assert(t.take(i + 1).drop_last() =~= prev);
        if i > 0 {
            out.push(' ');
        }
        push_all(&mut out, &chars_of(parts[i].as_str()));
        proof {
            if i > 0 {
                assert(out@ =~= joined(prev, " "@) + " "@ + t[i as int]);
            } else {
                assert(out@ =~= t[i as int]);
            }
        }
        i = i + 1;
    }
    assert(t.take(parts@.len() as int) =~= t);
    out
}

/// The markup of a code block with the given classes, the first naming
/// its language, around already highlighted code.
pub fn code_block_html(classes: &Vec<String>, code: &str) -> (r: String)
    requires
        classes@.len() > 0,
    ensures
        r@ == code_block_html_of(texts(classes@), code@),
{
    let joined_classes = join_spaced(classes);
    let mut out = chars_of("<pre");
    if joined_classes.len() > 0 {
        push_all(&mut out, &chars_of(" class=\""));
        push_all(&mut out, &joined_classes);
        push_all(&mut out, &chars_of("\""));
    }
    push_all(&mut out, &chars_of("><code class=\""));
    push_all(&mut out, &chars_of("language-"));
    push_all(&mut out, &chars_of(classes[0].as_str()));
    push_all(&mut out, &chars_of("\">"));
    push_all(&mut out, &chars_of(code));
    push_all(&mut out, &chars_of("\n</code></pre>"));
    proof {
        let jc = joined(texts(classes@), " "@);
        assert(texts(classes@)[0] == classes@[0]@);
        if jc.len() > 0 {
            assert(out@ =~= code_block_html_of(texts(classes@), code@));
        } else {
            assert(out@ =~= code_block_html_of(texts(classes@), code@));
        }
    }
    string_of(out.as_slice())
}

/// Why a code block cannot be highlighted.
pub enum HighlightError {
    /// No bundled syntax has the block's language as an extension or name.
    UnknownLanguage(String),
    /// The highlighter failed on a line of the block.
    Highlighting,
}

/// The class prefix of the highlighted markup.
pub open spec fn class_prefix() -> Seq<char> {
    "c-"@
}

/// The bundled syntaxes know `language`, as an extension or as a name.
pub open spec fn syntax_known(language: Seq<char>) -> bool {
    syntax_found_by_extension(language) || syntax_found_by_name(language)
}

/// The syntax for `language` is the one found by name: no syntax has it as
/// an extension.
pub open spec fn found_by_name(language: Seq<char>) -> bool {
    !syntax_found_by_extension(language)
}

/// Highlighting `text` as `language` fails on one of its lines.
pub open spec fn highlight_fails(language: Seq<char>, text: Seq<char>) -> bool {
    let lines = lines_with_endings_of(text);
    exists|j: int|
        0 <= j < lines.len() && #[trigger] line_fails(
            language,
            found_by_name(language),
            class_prefix(),
            lines.take(j),
            lines[j],
        )
}

/// The classed markup of `text` highlighted as `language`.
pub open spec fn highlighted_code_of(language: Seq<char>, text: Seq<char>) -> Seq<char> {
    highlighted_of(language, found_by_name(language), class_prefix(), lines_with_endings_of(text))
}

/// A code block with the given classes can be handled: it has no classes,
/// or its language is known and highlighting its text does not fail.
pub open spec fn block_handled(classes: Seq<Seq<char>>, text: Seq<char>) -> bool {
    classes.len() == 0 || (syntax_known(classes[0]) && !highlight_fails(classes[0], text))
}

/// The markup a handled code block becomes: none for a block without
/// classes, which stays as it is; otherwise its highlighted code in the
/// block markup.
pub open spec fn block_markup_of(classes: Seq<Seq<char>>, text: Seq<char>) -> Option<Seq<char>> {
    if classes.len() == 0 {
        None
    } else {
        Some(code_block_html_of(classes, highlighted_code_of(classes[0], text)))
    }
}

/// The outcome of highlighting a code block, over the named results of the
/// bundled syntaxes: the block markup when it can be handled, otherwise
/// the unknown language or the failed highlighting.
pub open spec fn highlight_outcome(
    classes: Seq<Seq<char>>,
    text: Seq<char>,
    r: Result<Option<String>, HighlightError>,
) -> bool {
    if block_handled(classes, text) {
        r matches Ok(o) && opt_text(o) == block_markup_of(classes, text)
    } else {
        r matches Err(e) && error_of(classes, text, e)
    }
}

/// The error of a code block that cannot be handled: its unknown language,
/// or else the failed highlighting.
pub open spec fn error_of(classes: Seq<Seq<char>>, text: Seq<char>, e: HighlightError) -> bool {
    if !syntax_known(classes[0]) {
        e matches HighlightError::UnknownLanguage(l) && l@ == classes[0]
    } else {
        e is Highlighting
    }
}

/// A block of a pandoc document, as the highlighting filter reads it: a
/// code block with its classes and text, or any other block.
pub enum BlockModel {
    Code { classes: Vec<String>, content: String },
    Other,
}

/// The filter can handle the block: it is no code block, or a code block
/// that can be handled.
pub open spec fn block_ok(b: BlockModel) -> bool {
    match b {
        BlockModel::Code { classes, content } => block_handled(texts(classes@), content@),
        BlockModel::Other => true,
    }
}

/// The raw markup that replaces a block: the highlighted markup of a code
/// block with classes; none for any other block, which stays as it is.
pub open spec fn raw_for(b: BlockModel) -> Option<Seq<char>> {
    match b {
        BlockModel::Code { classes, content } => block_markup_of(texts(classes@), content@),
        BlockModel::Other => None,
    }
}

/// The highlighter of code blocks, with the bundled syntaxes.
pub struct Highlighter {
    set: SyntaxSet,
}

impl Highlighter {
    /// A highlighter with the bundled syntaxes. The set is private and only
    /// filled here, so the lookups' named results are those of the bundled
    /// set.
    pub fn new() -> Highlighter {
        Highlighter { set: load_syntaxes() }
    }

    /// A code block of a post, highlighted: `Ok(None)` exactly for a block
    /// without classes, which stays as it is; otherwise the markup around
    /// the code as highlighted for the language its first class names,
    /// looked up as an extension and then as a name. A language known by
    /// neither is reported, and so is a line the highlighter fails on.
    pub fn highlight(&self, classes: &Vec<String>, content: &str) -> (r: Result<
        Option<String>,
        HighlightError,
    >)
        ensures
            highlight_outcome(texts(classes@), content@, r),
            r matches Ok(Some(h)) ==> classes@.len() > 0 && exists|lines: Seq<Seq<char>>|
                {
                    &&& #[trigger] lines.flatten() == content@
                    &&& forall|i: int| 0 <= i < lines.len() ==> (#[trigger] lines[i]).len() > 0
                    &&& forall|i: int, k: int|
                        0 <= i < lines.len() && 0 <= k < lines[i].len() - 1 ==> #[trigger] lines[i][k]
                            != '\n'
                    &&& forall|i: int| 0 <= i < lines.len() - 1 ==> (#[trigger] lines[i]).last() == '\n'
                    &&& forall|j: int|
                        0 <= j < lines.len() ==> !line_fails(
                            classes@[0]@,
                            !syntax_found_by_extension(classes@[0]@),
                            "c-"@,
                            #[trigger] lines.take(j),
                            lines[j],
                        )
                    &&& h@ == code_block_html_of(
                        texts(classes@),
                        highlighted_of(
                            classes@[0]@,
                            !syntax_found_by_extension(classes@[0]@),
                            "c-"@,
                            lines,
                        ),
                    )
                },
            r matches Err(HighlightError::Highlighting) ==> classes@.len() > 0 && exists|lines: Seq<Seq<char>>|
                {
                    &&& #[trigger] lines.flatten() == content@
                    &&& forall|i: int| 0 <= i < lines.len() ==> (#[trigger] lines[i]).len() > 0
                    &&& forall|i: int, k: int|
                        0 <= i < lines.len() && 0 <= k < lines[i].len() - 1 ==> #[trigger] lines[i][k]
                            != '\n'
                    &&& forall|i: int| 0 <= i < lines.len() - 1 ==> (#[trigger] lines[i]).last() == '\n'
                    &&& exists|j: int|
                        0 <= j < lines.len() && line_fails(
                            classes@[0]@,
                            !syntax_found_by_extension(classes@[0]@),
                            "c-"@,
                            #[trigger] lines.take(j),
                            lines[j],
                        )
                },
    {
        highlight_code_block(self, classes, content)
    }

    /// The highlighting filter over the blocks of a document: for each
    /// block, the raw markup that replaces it, if any. It fails, with the
    /// error of the first block it cannot handle, exactly when there is
    /// such a block.
    pub fn highlight_blocks(&self, blocks: &Vec<BlockModel>) -> (r: Result<
        Vec<Option<String>>,
        HighlightError,
    >)
        ensures
            r is Ok <==> forall|i: int| 0 <= i < blocks@.len() ==> block_ok(#[trigger] blocks@[i]),
            r matches Ok(v) ==> v@.len() == blocks@.len() && forall|i: int|
                0 <= i < blocks@.len() ==> opt_text(#[trigger] v@[i]) == raw_for(blocks@[i]),
            r matches Err(e) ==> exists|k: int|
                0 <= k < blocks@.len() && !block_ok(#[trigger] blocks@[k]) && (forall|j: int|
                    0 <= j < k ==> block_ok(#[trigger] blocks@[j])) && (blocks@[k] matches BlockModel::Code {
                    classes,
                    content,
                } && error_of(texts(classes@), content@, e)),
    {
        let mut out: Vec<Option<String>> = Vec::new();
        let mut i: usize = 0;
        while i < blocks.len()
            invariant
                i <= blocks@.len(),
                out@.len() == i,
                forall|j: int| 0 <= j < i ==> block_ok(#[trigger] blocks@[j]),
                forall|j: int| 0 <= j < i ==> opt_text(#[trigger] out@[j]) == raw_for(blocks@[j]),
            decreases blocks@.len() - i,
        {
            match &blocks[i] {
                BlockModel::Code { classes, content } => {
                    match self.highlight(classes, content.as_str()) {
                        Ok(o) => {
                            out.push(o);
                        },
                        Err(e) => {
                            assert(!block_ok(blocks@[i as int]));
                            return Err(e);
                        },
                    }
                },
                BlockModel::Other => {
                    out.push(None);
                },
            }
            i = i + 1;
        }
        Ok(out)
    }
}

/// A code block highlighted with the syntaxes of `h`.
fn highlight_code_block(
    h: &Highlighter,
    classes: &Vec<String>,
    content: &str,
) -> (r: Result<Option<String>, HighlightError>)
    ensures
        highlight_outcome(texts(classes@), content@, r),
        r matches Ok(Some(h)) ==> classes@.len() > 0 && exists|lines: Seq<Seq<char>>|
            {
                &&& #[trigger] lines.flatten() == content@
                &&& forall|i: int| 0 <= i < lines.len() ==> (#[trigger] lines[i]).len() > 0
                &&& forall|i: int, k: int|
                    0 <= i < lines.len() && 0 <= k < lines[i].len() - 1 ==> #[trigger] lines[i][k]
                        != '\n'
                &&& forall|i: int| 0 <= i < lines.len() - 1 ==> (#[trigger] lines[i]).last() == '\n'
                &&& forall|j: int|
                    0 <= j < lines.len() ==> !line_fails(
                        classes@[0]@,
                        !syntax_found_by_extension(classes@[0]@),
                        "c-"@,
                        #[trigger] lines.take(j),
                        lines[j],
                    )
                &&& h@ == code_block_html_of(
                    texts(classes@),
                    highlighted_of(
                        classes@[0]@,
                        !syntax_found_by_extension(classes@[0]@),
                        "c-"@,
                        lines,
                    ),
                )
            },
        r matches Err(HighlightError::Highlighting) ==> classes@.len() > 0 && exists|lines: Seq<Seq<char>>|
            {
                &&& #[trigger] lines.flatten() == content@
                &&& forall|i: int| 0 <= i < lines.len() ==> (#[trigger] lines[i]).len() > 0
                &&& forall|i: int, k: int|
                    0 <= i < lines.len() && 0 <= k < lines[i].len() - 1 ==> #[trigger] lines[i][k]
                        != '\n'
                &&& forall|i: int| 0 <= i < lines.len() - 1 ==> (#[trigger] lines[i]).last() == '\n'
                &&& exists|j: int|
                    0 <= j < lines.len() && line_fails(
                        classes@[0]@,
                        !syntax_found_by_extension(classes@[0]@),
                        "c-"@,
                        #[trigger] lines.take(j),
                        lines[j],
                    )
            },
{
    if classes.len() == 0 {
        return Ok(None);
    }
    let ghost cl = texts(classes@);
    assert(cl[0] == classes@[0]@);
    let language = classes[0].as_str();
    let syntax = match find_syntax_by_extension(h, language) {
        Some(s) => s,
        None => match find_syntax_by_name(h, language) {
            Some(s) => s,
            None => {
                return Err(HighlightError::UnknownLanguage(classes[0].clone()));
            },
        },
    };
    let mut g = new_generator(h, syntax, "c-");
    proof {
        reveal_strlit("c-");
    }
    let lines = lines_with_endings(content);
    let ghost ls = texts(lines@);
    assert(ls.take(0) =~= Seq::<Seq<char>>::empty());
    let mut i: usize = 0;
    while i < lines.len()
        invariant
            i <= lines@.len(),
            ls == texts(lines@),
            ls == lines_with_endings_of(content@),
            cl == texts(classes@),
            classes@.len() > 0,
            syntax_known(cl[0]),
            g.language@ == cl[0],
            g.by_name@ == found_by_name(cl[0]),
            g.prefix@ == class_prefix(),
            g.fed@ == ls.take(i as int),
            forall|j: int|
                0 <= j < i ==> !#[trigger] line_fails(
                    cl[0],
                    found_by_name(cl[0]),
                    class_prefix(),
                    ls.take(j),
                    ls[j],
                ),
        decreases lines@.len() - i,
    {
        assert(ls[i as int] == lines@[i as int]@);
        g = match parse_line(g, lines[i].as_str()) {
            Ok(n) => n,
            Err(_) => {
                assert(highlight_fails(cl[0], content@));
                proof {
                    law_lines_with_endings(content@);
                    reveal_strlit("c-");
                    assert(line_fails(cl[0], !syntax_found_by_extension(cl[0]), "c-"@, ls.take(i as int), ls[i as int]));
                }
                return Err(HighlightError::Highlighting);
            },
        };
        assert(ls.take(i as int).push(ls[i as int]) =~= ls.take(i + 1));
        i = i + 1;
    }
    assert(ls.take(ls.len() as int) =~= ls);
    assert(!highlight_fails(cl[0], content@));
    let code = finalize(g);
    proof {
        law_lines_with_endings(content@);
        reveal_strlit("c-");
        assert(code@ == highlighted_of(cl[0], !syntax_found_by_extension(cl[0]), "c-"@, ls));
    }
    Ok(Some(code_block_html(classes, code.as_str())))
}

} // verus!
