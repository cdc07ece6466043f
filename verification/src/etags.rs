//! The entity tags of served files: the table the preprocessor fills, the
//! text file it is kept in between runs, and the caching decision the
//! server makes from it.
use vstd::prelude::*;

use crate::locations::{etag_key, etag_key_of};
use crate::paths::{joined, push_all, seq_eq, with_extension, with_extension_of};
use crate::plain::{lines, lines_of, lines_state, strip_cr};
use crate::text::{chars_of, slice_of, string_of};

verus! {

/// Key and value texts of table entries.
pub open spec fn entry_texts(es: Seq<(String, String)>) -> Seq<(Seq<char>, Seq<char>)> {
    es.map_values(|e: (String, String)| (e.0@, e.1@))
}

/// The map that recording the entries in order produces.
pub open spec fn map_of(es: Seq<(Seq<char>, Seq<char>)>) -> Map<Seq<char>, Seq<char>>
    decreases es.len(),
{
    if es.len() == 0 {
        Map::empty()
    } else {
        map_of(es.drop_last()).insert(es.last().0, es.last().1)
    }
}

/// No key occurs twice.
pub open spec fn unique_keys(es: Seq<(Seq<char>, Seq<char>)>) -> bool {
    forall|i: int, j: int| 0 <= i < j < es.len() ==> es[i].0 != es[j].0
}

/// The entity tags of served files, by public key.
pub struct ETags {
    entries: Vec<(String, String)>,
}

impl View for ETags {
    type V = Map<Seq<char>, Seq<char>>;

    closed spec fn view(&self) -> Map<Seq<char>, Seq<char>> {
        map_of(entry_texts(self.entries@))
    }
}

/// The keys of the entries.
proof fn lemma_map_of_keys(es: Seq<(Seq<char>, Seq<char>)>)
    ensures
        forall|k: Seq<char>|
            map_of(es).contains_key(k) <==> exists|i: int| 0 <= i < es.len() && (#[trigger] es[i]).0
                == k,
    decreases es.len(),
{
    if es.len() > 0 {
        lemma_map_of_keys(es.drop_last());
        assert forall|k: Seq<char>|
            map_of(es).contains_key(k) implies exists|i: int| 0 <= i < es.len() && (#[trigger] es[i]).0
                == k by {
            if k == es.last().0 {
                assert(es[es.len() - 1].0 == k);
            } else {
                assert(map_of(es.drop_last()).contains_key(k));
                let i = choose|i: int| 0 <= i < es.drop_last().len() && (#[trigger] es.drop_last()[i]).0 == k;
                assert(es[i] == es.drop_last()[i]);
            }
        }
        assert forall|k: Seq<char>|
            (exists|i: int| 0 <= i < es.len() && (#[trigger] es[i]).0 == k) implies map_of(es).contains_key(k) by {
            let i = choose|i: int| 0 <= i < es.len() && (#[trigger] es[i]).0 == k;
            if i < es.len() - 1 && k != es.last().0 {
                assert(es.drop_last()[i] == es[i]);
                assert(exists|j: int| 0 <= j < es.drop_last().len() && (#[trigger] es.drop_last()[j]).0 == k);
                assert(map_of(es.drop_last()).contains_key(k));
            }
        }
    }
}

/// With unique keys, an entry's value is what the map holds for its key.
proof fn lemma_map_of_value(es: Seq<(Seq<char>, Seq<char>)>, i: int)
    requires
        unique_keys(es),
        0 <= i < es.len(),
    ensures
        map_of(es).contains_key(es[i].0),
        map_of(es)[es[i].0] == es[i].1,
    decreases es.len(),
{
    if i < es.len() - 1 {
        lemma_map_of_value(es.drop_last(), i);
        assert(es.drop_last()[i] == es[i]);
    }
}

/// Replacing the value of an entry, with unique keys, updates the map.
proof fn lemma_map_of_update(es: Seq<(Seq<char>, Seq<char>)>, i: int, v: Seq<char>)
    requires
        unique_keys(es),
        0 <= i < es.len(),
    ensures
        map_of(es.update(i, (es[i].0, v))) =~= map_of(es).insert(es[i].0, v),
    decreases es.len(),
{
    let u = es.update(i, (es[i].0, v));
    if i == es.len() - 1 {
        assert(u.drop_last() =~= es.drop_last());
    } else {
        assert(u.drop_last() =~= es.drop_last().update(i, (es[i].0, v)));
        assert(es.drop_last()[i] == es[i]);
        lemma_map_of_update(es.drop_last(), i, v);
        assert(es.last().0 != es[i].0);
    }
}

impl ETags {
    #[verifier::type_invariant]
    closed spec fn keys_unique(self) -> bool {
        unique_keys(entry_texts(self.entries@))
    }

    /// An empty table.
    pub fn new() -> (r: ETags)
        ensures
            r@ == Map::<Seq<char>, Seq<char>>::empty(),
    {
        let r = ETags { entries: Vec::new() };
        assert(entry_texts(r.entries@) =~= Seq::<(Seq<char>, Seq<char>)>::empty());
        r
    }

    /// The number of tagged keys.
    pub fn len(&self) -> (r: usize)
        ensures
            r == self@.dom().len(),
    {
        proof {
            use_type_invariant(self);
            self.lemma_len();
        }
        self.entries.len()
    }

    proof fn lemma_len(&self)
        requires
            unique_keys(entry_texts(self.entries@)),
        ensures
            self@.dom().len() == self.entries@.len(),
    {
        lemma_map_of_len(entry_texts(self.entries@));
    }

    /// Where `key` is among the entries.
    fn position(&self, key: &Vec<char>) -> (r: Option<usize>)
        ensures
            match r {
                Some(i) => i < self.entries@.len() && self.entries@[i as int].0@ == key@,
                None => forall|i: int|
                    0 <= i < self.entries@.len() ==> (#[trigger] self.entries@[i]).0@ != key@,
            },
    {
        let mut i: usize = 0;
        while i < self.entries.len()
            invariant
                i <= self.entries@.len(),
                forall|j: int| 0 <= j < i ==> (#[trigger] self.entries@[j]).0@ != key@,
            decreases self.entries@.len() - i,
        {
            if seq_eq(&chars_of(self.entries[i].0.as_str()), key) {
                return Some(i);
            }
            i = i + 1;
        }
        None
    }

    /// The tag recorded for `key`.
    pub fn get(&self, key: &str) -> (r: Option<&String>)
        ensures
            r is Some <==> self@.contains_key(key@),
            r matches Some(v) ==> self@[key@] == v@,
    {
        proof {
            use_type_invariant(self);
            lemma_map_of_keys(entry_texts(self.entries@));
        }
        let k = chars_of(key);
        match self.position(&k) {
            Some(i) => {
                proof {
                    lemma_map_of_value(entry_texts(self.entries@), i as int);
                    assert(entry_texts(self.entries@)[i as int].0 == key@);
                }
                Some(&self.entries[i].1)
            },
            None => {
                proof {
                    assert forall|j: int| 0 <= j < entry_texts(self.entries@).len() implies (
                    #[trigger] entry_texts(self.entries@)[j]).0 != key@ by {
                        assert(entry_texts(self.entries@)[j].0 == self.entries@[j].0@);
                    }
                }
                None
            },
        }
    }

    /// Records `value` as the tag of `key`, replacing an earlier one.
    pub fn insert(&mut self, key: String, value: String)
        ensures
            final(self)@ == old(self)@.insert(key@, value@),
    {
        proof {
            use_type_invariant(&*self);
        }
        let k = chars_of(key.as_str());
        let ghost es = entry_texts(self.entries@);
        let found = self.position(&k);
        let mut entries: Vec<(String, String)> = Vec::new();
        std::mem::swap(&mut entries, &mut self.entries);
        assert(entry_texts(entries@) == es);
        match found {
            Some(i) => {
                let ghost kv = (es[i as int].0, value@);
                entries.set(i, (key, value));
                proof {
                    assert(entry_texts(entries@) =~= es.update(i as int, kv));
                    lemma_map_of_update(es, i as int, value@);
                }
            },
            None => {
                entries.push((key, value));
                proof {
                    assert(entry_texts(entries@) =~= es.push((k@, value@)));
                    assert(entry_texts(entries@).drop_last() =~= es);
                    assert forall|a: int, b: int|
                        0 <= a < b < entry_texts(entries@).len() implies entry_texts(
                        entries@,
                    )[a].0 != entry_texts(entries@)[b].0 by {
                        if b == es.len() {
                            assert(entry_texts(entries@)[a].0 == entries@[a].0@);
                        } else {
                            assert(entry_texts(entries@)[a] == es[a]);
                            assert(entry_texts(entries@)[b] == es[b]);
                        }
                    }
                }
            },
        }
        self.entries = entries;
    }

    /// Records the tag of the output at `path` under the output's public
    /// key.
    pub fn record_output(&mut self, path: &str, tag: String)
        ensures
            final(self)@ == old(self)@.insert(etag_key_of(path@), tag@),
    {
        let key = etag_key(path);
        self.insert(key, tag);
    }

    /// The text the table is kept in: one `key:tag` line per entry, lines
    /// joined by line breaks.
    pub closed spec fn text_view(&self) -> Seq<char> {
        tag_text(entry_texts(self.entries@))
    }

    /// The text of the table, in the order its keys were first recorded.
    pub fn to_text(&self) -> (r: String)
        ensures
            r@ == self.text_view(),
            (forall|k: Seq<char>| #[trigger] self@.contains_key(k) ==> plain_field(k) && plain_field(
                self@[k],
            )) ==> parse_tags_of(r@) == Some(self@),
    {
        proof {
            use_type_invariant(self);
            let es = entry_texts(self.entries@);
            if forall|k: Seq<char>| #[trigger] self@.contains_key(k) ==> plain_field(k) && plain_field(
                self@[k],
            ) {
                lemma_map_of_keys(es);
                assert forall|i: int| 0 <= i < es.len() implies plain_field((#[trigger] es[i]).0)
                    && plain_field(es[i].1) by {
                    lemma_map_of_value(es, i);
                    assert(self@.contains_key(es[i].0));
                }
                law_tag_text_round_trip(es);
            }
        }
        let ghost es = entry_texts(self.entries@);
        let mut out: Vec<char> = Vec::new();
        let mut i: usize = 0;
        while i < self.entries.len()
            invariant
                i <= self.entries@.len(),
                es == entry_texts(self.entries@),
                out@ == joined(tag_lines(es.take(i as int)), "\n"@),
            decreases self.entries@.len() - i,
        {
            proof {
                reveal_strlit("\n");
                reveal_strlit(":");
            }
            let ghost prev = tag_lines(es.take(i as int));
            if i > 0 {
                out.push('\n');
            }
            push_all(&mut out, &chars_of(self.entries[i].0.as_str()));
            out.push(':');
            push_all(&mut out, &chars_of(self.entries[i].1.as_str()));
            proof {
                assert(es.take(i + 1) =~= es.take(i as int).push(es[i as int]));
                assert(tag_lines(es.take(i + 1)) =~= prev.push(tag_line(es[i as int])));
                assert(tag_lines(es.take(i + 1)).drop_last() =~= prev);
                assert(es[i as int] == (self.entries@[i as int].0@, self.entries@[i as int].1@));
                if i > 0 {
                    assert(out@ =~= joined(prev, "\n"@) + "\n"@ + tag_line(es[i as int]));
                } else {
                    assert(out@ =~= tag_line(es[i as int]));
                }
            }
            i = i + 1;
        }
        assert(es.take(es.len() as int) =~= es);
        string_of(out.as_slice())
    }

    /// A table read back from its text; `None` when a line holds no `:`.
    /// Later lines for a key replace earlier ones.
    pub fn parse(text: &str) -> (r: Option<ETags>)
        ensures
            match parse_tags_of(text@) {
                Some(m) => r matches Some(t) && t@ == m,
                None => r is None,
            },
    {
        let s = chars_of(text);
        let ls = lines(&s);
        let ghost lv = ls@.map_values(|l: Vec<char>| l@);
        let mut t = ETags::new();
        let mut i: usize = 0;
        while i < ls.len()
            invariant
                i <= ls@.len(),
                lv == ls@.map_values(|l: Vec<char>| l@),
                lv == lines_of(s@),
                s@ == text@,
                parse_lines(lv.take(i as int)) == Some(t@),
            decreases ls@.len() - i,
        {
            let line = &ls[i];
            assert(lv[i as int] == line@);
            assert(lv.take(i + 1).drop_last() =~= lv.take(i as int));
            assert(lv.take(i + 1).last() == line@);
            match line_entry_exec(line) {
                Some((k, v)) => {
                    t.insert(k, v);
                },
                None => {
                    proof {
                        lemma_parse_lines_fails(lv, i as int);
                    }
                    return None;
                },
            }
            i = i + 1;
        }
        assert(lv.take(ls@.len() as int) =~= lv);
        Some(t)
    }
}

proof fn lemma_map_of_len(es: Seq<(Seq<char>, Seq<char>)>)
    requires
        unique_keys(es),
    ensures
        map_of(es).dom().len() == es.len(),
        map_of(es).dom().finite(),
    decreases es.len(),
{
    if es.len() > 0 {
        lemma_map_of_len(es.drop_last());
        lemma_map_of_keys(es.drop_last());
        assert(!map_of(es.drop_last()).dom().contains(es.last().0)) by {
            if map_of(es.drop_last()).dom().contains(es.last().0) {
                let i = choose|i: int|
                    0 <= i < es.drop_last().len() && (#[trigger] es.drop_last()[i]).0 == es.last().0;
                assert(es[i] == es.drop_last()[i]);
            }
        }
    }
}

/// The line a table entry is kept on.
pub open spec fn tag_line(e: (Seq<char>, Seq<char>)) -> Seq<char> {
    e.0 + ":"@ + e.1
}

/// The lines of the entries, in order.
pub open spec fn tag_lines(es: Seq<(Seq<char>, Seq<char>)>) -> Seq<Seq<char>> {
    es.map_values(|e: (Seq<char>, Seq<char>)| tag_line(e))
}

/// The text a table with these entries is kept in.
pub open spec fn tag_text(es: Seq<(Seq<char>, Seq<char>)>) -> Seq<char> {
    joined(tag_lines(es), "\n"@)
}

/// The first position at or after `from` where `c` occurs in `s`.
pub open spec fn index_from(s: Seq<char>, c: char, from: int) -> Option<int>
    decreases s.len() + 1 - from,
{
    if from < 0 || from >= s.len() {
        None
    } else if s[from] == c {
        Some(from)
    } else {
        index_from(s, c, from + 1)
    }
}

/// The entry a line of the tag file holds: the text before its first `:`
/// and the text after it, up to a further `:`; `None` without a `:`.
pub open spec fn line_entry(l: Seq<char>) -> Option<(Seq<char>, Seq<char>)> {
    match index_from(l, ':', 0) {
        None => None,
        Some(i) => Some(
            (
                l.take(i),
                l.subrange(
                    i + 1,
                    match index_from(l, ':', i + 1) {
                        Some(j) => j,
                        None => l.len() as int,
                    },
                ),
            ),
        ),
    }
}

/// The table the lines record, in order; `None` when a line holds no `:`.
pub open spec fn parse_lines(ls: Seq<Seq<char>>) -> Option<Map<Seq<char>, Seq<char>>>
    decreases ls.len(),
{
    if ls.len() == 0 {
        Some(Map::empty())
    } else {
        match (parse_lines(ls.drop_last()), line_entry(ls.last())) {
            (Some(m), Some((k, v))) => Some(m.insert(k, v)),
            _ => None,
        }
    }
}

/// The table a tag file's text records.
pub open spec fn parse_tags_of(text: Seq<char>) -> Option<Map<Seq<char>, Seq<char>>> {
    parse_lines(lines_of(text))
}

proof fn lemma_parse_lines_fails(ls: Seq<Seq<char>>, i: int)
    requires
        0 <= i < ls.len(),
        line_entry(ls[i]) is None,
    ensures
        parse_lines(ls) is None,
    decreases ls.len(),
{
    if i < ls.len() - 1 {
        assert(ls.drop_last()[i] == ls[i]);
        lemma_parse_lines_fails(ls.drop_last(), i);
    }
}

/// The first position at or after `from` where `c` occurs.
fn index_from_exec(s: &Vec<char>, c: char, from: usize) -> (r: Option<usize>)
    requires
        from <= s@.len(),
    ensures
        r is None <==> index_from(s@, c, from as int) is None,
        r matches Some(j) ==> index_from(s@, c, from as int) == Some(j as int) && from <= j < s@.len(),
{
    let mut i = from;
    while i < s.len()
        invariant
            from <= i <= s@.len(),
            index_from(s@, c, from as int) == index_from(s@, c, i as int),
        decreases s@.len() - i,
    {
        if s[i] == c {
            return Some(i);
        }
        i = i + 1;
    }
    None
}

/// The entry a line of the tag file holds.
fn line_entry_exec(l: &Vec<char>) -> (r: Option<(String, String)>)
    ensures
        match line_entry(l@) {
            Some((k, v)) => r matches Some((rk, rv)) && rk@ == k && rv@ == v,
            None => r is None,
        },
{
    let n = l.len();
    match index_from_exec(l, ':', 0) {
        None => None,
        Some(i) => {
            let end = match index_from_exec(l, ':', i + 1) {
                Some(j) => j,
                None => n,
            };
            let k = slice_of(l, 0, i);
            let v = slice_of(l, i + 1, end);
            Some((string_of(k.as_slice()), string_of(v.as_slice())))
        },
    }
}

/// What a server does with a request for a tagged file.
pub enum CacheAction {
    /// The browser's copy is current: answer "not modified".
    NotModified,
    /// Serve the file, with its tag when it has one.
    Serve(Option<String>),
}

/// The key a request path is looked up by: the path without the extension
/// of its file name.
pub open spec fn cache_key_of(uri: Seq<char>) -> Seq<char> {
    with_extension_of(uri, Seq::empty())
}

impl ETags {
    /// What to do with a request for `uri` that carries `if_none_match`:
    /// "not modified" when both the request and the table hold a tag for
    /// the file and they are equal; otherwise serve it with the table's tag.
    pub fn cache_action(&self, uri: &str, if_none_match: Option<&str>) -> (r: CacheAction)
        ensures
            match (if_none_match, self@.contains_key(cache_key_of(uri@))) {
                (Some(b), true) if b@ == self@[cache_key_of(uri@)] => r is NotModified,
                (_, true) => r matches CacheAction::Serve(Some(t)) && t@ == self@[cache_key_of(
                    uri@,
                )],
                (_, false) => r matches CacheAction::Serve(None),
            },
    {
        let key = with_extension(uri, "");
        assert(""@ =~= Seq::<char>::empty()) by {
            reveal_strlit("");
        }
        match self.get(key.as_str()) {
            Some(tag) => {
                if let Some(b) = if_none_match {
                    if seq_eq(&chars_of(b), &chars_of(tag.as_str())) {
                        return CacheAction::NotModified;
                    }
                }
                CacheAction::Serve(Some(tag.clone()))
            },
            None => CacheAction::Serve(None),
        }
    }
}

/// A text without the separators of the tag file.
pub open spec fn plain_field(s: Seq<char>) -> bool {
    forall|k: int| 0 <= k < s.len() ==> s[k] != ':' && s[k] != '\n' && s[k] != '\r'
}

proof fn lemma_lines_state_plain(s: Seq<char>, t: Seq<char>)
    requires
        forall|k: int| 0 <= k < t.len() ==> t[k] != '\n',
    ensures
        lines_state(s + t) == (lines_state(s).0, lines_state(s).1 + t),
    decreases t.len(),
{
    if t.len() == 0 {
        assert(s + t =~= s);
        assert(lines_state(s).1 + t =~= lines_state(s).1);
    } else {
        lemma_lines_state_plain(s, t.drop_last());
        assert((s + t).drop_last() =~= s + t.drop_last());
        assert((s + t).last() == t.last());
        assert(lines_state(s).1 + t.drop_last() + seq![t.last()] =~= lines_state(s).1 + t);
        assert((lines_state(s).1 + t.drop_last()).push(t.last()) =~= lines_state(s).1 + t);
    }
}

proof fn lemma_lines_state_joined(ls: Seq<Seq<char>>)
    requires
        ls.len() > 0,
        forall|i: int, k: int| 0 <= i < ls.len() && 0 <= k < ls[i].len() ==> ls[i][k] != '\n',
        forall|i: int| 0 <= i < ls.len() ==> strip_cr(#[trigger] ls[i]) == ls[i],
    ensures
        lines_state(joined(ls, "\n"@)) == (ls.drop_last(), ls.last()),
    decreases ls.len(),
{
    reveal_strlit("\n");
    if ls.len() == 1 {
        lemma_lines_state_plain(Seq::empty(), ls[0]);
        assert(Seq::<char>::empty() + ls[0] =~= ls[0]);
        assert(Seq::<char>::empty() + ls[0] =~= ls[0]);
        assert(ls.drop_last() =~= Seq::<Seq<char>>::empty());
    } else {
        let dl = ls.drop_last();
        lemma_lines_state_joined(dl);
        let j = joined(dl, "\n"@);
        assert((j + "\n"@).drop_last() =~= j);
        assert(lines_state(j + "\n"@) == (dl.drop_last().push(strip_cr(dl.last())), Seq::<char>::empty()));
        assert(dl.drop_last().push(dl.last()) =~= dl);
        lemma_lines_state_plain(j + "\n"@, ls.last());
        assert(Seq::<char>::empty() + ls.last() =~= ls.last());
        assert(joined(ls, "\n"@) == j + "\n"@ + ls.last());
    }
}

proof fn lemma_lines_of_joined(ls: Seq<Seq<char>>)
    requires
        forall|i: int, k: int| 0 <= i < ls.len() && 0 <= k < ls[i].len() ==> ls[i][k] != '\n',
        forall|i: int| 0 <= i < ls.len() ==> strip_cr(#[trigger] ls[i]) == ls[i],
        forall|i: int| 0 <= i < ls.len() ==> (#[trigger] ls[i]).len() > 0,
    ensures
        lines_of(joined(ls, "\n"@)) == ls,
{
    if ls.len() == 0 {
        assert(lines_state(Seq::<char>::empty()) == (Seq::<Seq<char>>::empty(), Seq::<char>::empty()));
    } else {
        lemma_lines_state_joined(ls);
        assert(ls.drop_last().push(ls.last()) =~= ls);
    }
}

proof fn lemma_index_from_none(s: Seq<char>, c: char, from: int)
    requires
        0 <= from,
        forall|k: int| from <= k < s.len() ==> s[k] != c,
    ensures
        index_from(s, c, from) is None,
    decreases s.len() + 1 - from,
{
    if from < s.len() {
        lemma_index_from_none(s, c, from + 1);
    }
}

proof fn lemma_line_entry(k: Seq<char>, v: Seq<char>)
    requires
        plain_field(k),
        plain_field(v),
    ensures
        line_entry(tag_line((k, v))) == Some((k, v)),
{
    reveal_strlit(":");
    let l = tag_line((k, v));
    assert(l == k + seq![':'] + v);
    assert(l[k.len() as int] == ':');
    assert forall|i: int| 0 <= i < k.len() implies l[i] != ':' by {
        assert(l[i] == k[i]);
    }
    lemma_index_from_to(l, ':', 0, k.len() as int);
    assert forall|i: int| k.len() + 1 <= i < l.len() implies l[i] != ':' by {
        assert(l[i] == v[i - k.len() - 1]);
    }
    lemma_index_from_none(l, ':', k.len() + 1int);
    assert(l.take(k.len() as int) =~= k);
    assert(l.subrange(k.len() + 1int, l.len() as int) =~= v);
}

proof fn lemma_index_from_to(s: Seq<char>, c: char, from: int, at: int)
    requires
        0 <= from <= at < s.len(),
        s[at] == c,
        forall|k: int| from <= k < at ==> s[k] != c,
    ensures
        index_from(s, c, from) == Some(at),
    decreases at - from,
{
    if from < at {
        lemma_index_from_to(s, c, from + 1, at);
    }
}

proof fn lemma_parse_tag_lines(es: Seq<(Seq<char>, Seq<char>)>)
    requires
        forall|i: int| 0 <= i < es.len() ==> plain_field((#[trigger] es[i]).0) && plain_field(es[i].1),
    ensures
        parse_lines(tag_lines(es)) == Some(map_of(es)),
    decreases es.len(),
{
    if es.len() > 0 {
        let dl = es.drop_last();
        assert forall|i: int| 0 <= i < dl.len() implies plain_field((#[trigger] dl[i]).0) && plain_field(
            dl[i].1,
        ) by {
            assert(dl[i] == es[i]);
        }
        lemma_parse_tag_lines(dl);
        assert(tag_lines(es).drop_last() =~= tag_lines(dl));
        lemma_line_entry(es.last().0, es.last().1);
    }
}

/// Reading back the text of a table gives the table again, when no key or
/// tag holds a `:`, a line break or a carriage return.
pub proof fn law_tag_text_round_trip(es: Seq<(Seq<char>, Seq<char>)>)
    requires
        unique_keys(es),
        forall|i: int| 0 <= i < es.len() ==> plain_field((#[trigger] es[i]).0) && plain_field(es[i].1),
    ensures
        parse_tags_of(tag_text(es)) == Some(map_of(es)),
{
    reveal_strlit(":");
    let ls = tag_lines(es);
    assert forall|i: int, k: int| 0 <= i < ls.len() && 0 <= k < ls[i].len() implies ls[i][k] != '\n' by {
        let e = es[i];
        assert(ls[i] == e.0 + seq![':'] + e.1);
        if k < e.0.len() {
            assert(ls[i][k] == e.0[k]);
        } else if k > e.0.len() {
            assert(ls[i][k] == e.1[k - e.0.len() - 1]);
        }
    }
    assert forall|i: int| 0 <= i < ls.len() implies strip_cr(#[trigger] ls[i]) == ls[i] by {
        let e = es[i];
        assert(ls[i] == e.0 + seq![':'] + e.1);
        if e.1.len() > 0 {
            assert(ls[i].last() == e.1.last());
        }
    }
    assert forall|i: int| 0 <= i < ls.len() implies (#[trigger] ls[i]).len() > 0 by {
        assert(ls[i] == es[i].0 + seq![':'] + es[i].1);
    }
    lemma_lines_of_joined(ls);
    lemma_parse_tag_lines(es);
}

/// A tag recorded for a key is what a lookup of that key gives; recording
/// leaves the tags of other keys as they were.
pub proof fn law_get_after_insert(
    before: Map<Seq<char>, Seq<char>>,
    key: Seq<char>,
    tag: Seq<char>,
    other: Seq<char>,
)
    ensures
        before.insert(key, tag).contains_key(key),
        before.insert(key, tag)[key] == tag,
        other != key ==> before.insert(key, tag).contains_key(other) == before.contains_key(other),
        other != key && before.contains_key(other) ==> before.insert(key, tag)[other]
            == before[other],
{
}

/// The tag file holds one line per entry, in order: the key, a `:` and
/// the tag, when no key or tag holds a `:`, a line break or a carriage
/// return.
pub proof fn law_tag_text_lines(es: Seq<(Seq<char>, Seq<char>)>)
    requires
        forall|i: int| 0 <= i < es.len() ==> plain_field((#[trigger] es[i]).0) && plain_field(es[i].1),
    ensures
        lines_of(tag_text(es)).len() == es.len(),
        forall|i: int|
            0 <= i < es.len() ==> #[trigger] lines_of(tag_text(es))[i] == es[i].0 + ":"@ + es[i].1,
{
    reveal_strlit(":");
    let ls = tag_lines(es);
    assert forall|i: int, k: int| 0 <= i < ls.len() && 0 <= k < ls[i].len() implies ls[i][k] != '\n' by {
        let e = es[i];
        assert(ls[i] == e.0 + seq![':'] + e.1);
        if k < e.0.len() {
            assert(ls[i][k] == e.0[k]);
        } else if k > e.0.len() {
            assert(ls[i][k] == e.1[k - e.0.len() - 1]);
        }
    }
    assert forall|i: int| 0 <= i < ls.len() implies strip_cr(#[trigger] ls[i]) == ls[i] by {
        let e = es[i];
        assert(ls[i] == e.0 + seq![':'] + e.1);
        if e.1.len() > 0 {
            assert(ls[i].last() == e.1.last());
        }
    }
    assert forall|i: int| 0 <= i < ls.len() implies (#[trigger] ls[i]).len() > 0 by {
        assert(ls[i] == es[i].0 + seq![':'] + es[i].1);
    }
    lemma_lines_of_joined(ls);
}

} // verus!
