//! The knowledge index: knowledge files by path, with the tags taken from
//! the directories they lie in, and what is found and recommended in it.
use vstd::prelude::*;
use std::path::PathBuf;
use vstd::string::StringExecFns;
use vstd::utf8::encode_utf8;
use crate::digest::{hex_text, sha256_hex, sha256_of};
use crate::layers::{is_keyword, is_stop_word, keywords_of, pieces_by, split_keywords, texts_of};
use crate::paths::{path_from, path_of};
use crate::str_map::StrMap;
use crate::text::{chars_of, contains_text, is_white_space, lowercase, lowercase_of, occurs_in, string_from_chars, white_space};

verus! {

/// The pieces of `s` between slashes, empty ones included.
pub open spec fn slash_pieces(s: Seq<char>) -> Seq<Seq<char>>
    decreases s.len(),
{
    if s.len() == 0 {
        seq![Seq::empty()]
    } else {
        let p = slash_pieces(s.drop_last());
        if s.last() == '/' {
            p.push(Seq::empty())
        } else {
            p.update(p.len() - 1, p.last().push(s.last()))
        }
    }
}

/// The pieces of `ps` that are neither empty nor a single dot.
pub open spec fn named_pieces(ps: Seq<Seq<char>>) -> Seq<Seq<char>>
    decreases ps.len(),
{
    if ps.len() == 0 {
        ps
    } else {
        let k = named_pieces(ps.drop_last());
        let p = ps.last();
        if p.len() == 0 || p == seq!['.'] { k } else { k.push(p) }
    }
}

/// The components of the Unix path `s`, each written as text, as
/// `Path::components` yields them: the root as `/` where the path starts
/// with a slash, a leading `.` where the path starts with one, then the
/// pieces between slashes, empty pieces and further `.` pieces left out.
pub open spec fn components(s: Seq<char>) -> Seq<Seq<char>> {
    let ps = slash_pieces(s);
    if ps[0].len() == 0 && s.len() > 0 {
        seq![seq!['/']] + named_pieces(ps.drop_first())
    } else if ps[0] == seq!['.'] {
        seq![seq!['.']] + named_pieces(ps.drop_first())
    } else {
        named_pieces(ps)
    }
}

/// `c` without its prefix `r` where `r` is one, else `c` unchanged.
pub open spec fn strip_components(c: Seq<Seq<char>>, r: Seq<Seq<char>>) -> Seq<Seq<char>> {
    if r.len() <= c.len() && c.take(r.len() as int) == r {
        c.skip(r.len() as int)
    } else {
        c
    }
}

/// The components of the parent: all but the last, or none where the
/// last is the root or there are none.
pub open spec fn parent_components(c: Seq<Seq<char>>) -> Seq<Seq<char>> {
    if c.len() > 0 && c.last() != seq!['/'] {
        c.drop_last()
    } else {
        Seq::empty()
    }
}

/// The tags of the file at `path` under the knowledge root `root`: the
/// directories between the root and the file.
pub open spec fn tags_of(path: Seq<char>, root: Seq<char>) -> Seq<Seq<char>> {
    parent_components(strip_components(components(path), components(root)))
}

proof fn lemma_slash_pieces_len(s: Seq<char>)
    ensures
        slash_pieces(s).len() >= 1,
    decreases s.len(),
{
    if s.len() > 0 {
        lemma_slash_pieces_len(s.drop_last());
    }
}

fn split_slashes(s: &Vec<char>) -> (ps: Vec<Vec<char>>)
    ensures
        ps@.map_values(|v: Vec<char>| v@) == slash_pieces(s@),
{
    let mut done: Vec<Vec<char>> = Vec::new();
    let mut cur: Vec<char> = Vec::new();
    let mut i: usize = 0;
    assert(s@.take(0) =~= Seq::<char>::empty());
    while i < s.len()
        invariant
            i <= s@.len(),
            slash_pieces(s@.take(i as int)) == done@.map_values(|v: Vec<char>| v@).push(cur@),
        decreases s@.len() - i,
    {
        let c = s[i];
        let ghost before = done@.map_values(|v: Vec<char>| v@);
        assert(s@.take(i + 1).drop_last() =~= s@.take(i as int));
        assert(s@.take(i + 1).last() == c);
        if c == '/' {
            let mut finished: Vec<char> = Vec::new();
            std::mem::swap(&mut finished, &mut cur);
            done.push(finished);
            assert(done@.map_values(|v: Vec<char>| v@) =~= before.push(finished@));
        } else {
            let ghost old_cur = cur@;
            cur.push(c);
            assert(before.push(old_cur).update(before.len() as int, old_cur.push(c)) =~= before.push(cur@));
        }
        i += 1;
    }
    assert(s@.take(i as int) =~= s@);
    let ghost before_last = done@.map_values(|v: Vec<char>| v@);
    let ghost last = cur@;
    done.push(cur);
    assert(done@.map_values(|v: Vec<char>| v@) =~= before_last.push(last));
    done
}

fn is_dot(p: &Vec<char>) -> (r: bool)
    ensures
        r == (p@ == seq!['.']),
{
    if p.len() == 1 {
        let c = p[0];
        assert(p@ =~= seq![c]);
        c == '.'
    } else {
        false
    }
}

fn path_components(s: &str) -> (c: Vec<Vec<char>>)
    ensures
        c@.map_values(|v: Vec<char>| v@) == components(s@),
{
    let cs = chars_of(s);
    let ps = split_slashes(&cs);
    let ghost pv = ps@.map_values(|v: Vec<char>| v@);
    proof {
        lemma_slash_pieces_len(s@);
    }
    let mut out: Vec<Vec<char>> = Vec::new();
    let mut start: usize = 0;
    assert(pv[0] == ps@[0]@);
    if ps[0].len() == 0 && cs.len() > 0 {
        let root = vec!['/'];
        assert(root@ =~= seq!['/']);
        out.push(root);
        start = 1;
        assert(out@.map_values(|v: Vec<char>| v@) =~= seq![seq!['/']]);
    } else if is_dot(&ps[0]) {
        let dot = vec!['.'];
        assert(dot@ =~= seq!['.']);
        out.push(dot);
        start = 1;
        assert(out@.map_values(|v: Vec<char>| v@) =~= seq![seq!['.']]);
    } else {
        assert(out@.map_values(|v: Vec<char>| v@) =~= Seq::<Seq<char>>::empty());
    }
    let ghost head = out@.map_values(|v: Vec<char>| v@);
    assert(head == if start == 1 { if pv[0].len() == 0 && s@.len() > 0 { seq![seq!['/']] } else { seq![seq!['.']] } } else { Seq::<Seq<char>>::empty() });
    let ghost rest = pv.skip(start as int);
    let mut i: usize = start;
    assert(pv.skip(start as int).take(0) =~= Seq::<Seq<char>>::empty());
    while i < ps.len()
        invariant
            start <= i <= ps@.len(),
            pv == ps@.map_values(|v: Vec<char>| v@),
            rest == pv.skip(start as int),
            out@.map_values(|v: Vec<char>| v@) == head + named_pieces(rest.take(i - start)),
        decreases ps@.len() - i,
    {
        assert(rest.take(i - start + 1).drop_last() =~= rest.take(i - start));
        assert(rest.take(i - start + 1).last() == ps@[i as int]@);
        let p = &ps[i];
        if p.len() > 0 && !is_dot(p) {
            let ghost before = out@.map_values(|v: Vec<char>| v@);
            out.push(p.clone());
            assert(out@.map_values(|v: Vec<char>| v@) =~= before.push(p@));
            assert(before.push(p@) =~= head + named_pieces(rest.take(i - start + 1)));
        }
        i += 1;
    }
    assert(rest.take(i - start) =~= rest);
    proof {
        if start == 0 {
            assert(rest =~= pv);
            assert(head + named_pieces(pv) =~= named_pieces(pv));
        } else {
            assert(rest =~= pv.drop_first());
        }
    }
    out
}

fn same_components(a: &Vec<Vec<char>>, b: &Vec<Vec<char>>, n: usize) -> (r: bool)
    requires
        n <= a@.len(),
        n <= b@.len(),
    ensures
        r == (a@.map_values(|v: Vec<char>| v@).take(n as int) == b@.map_values(|v: Vec<char>| v@).take(n as int)),
{
    let ghost av = a@.map_values(|v: Vec<char>| v@);
    let ghost bv = b@.map_values(|v: Vec<char>| v@);
    let mut i: usize = 0;
    while i < n
        invariant
            i <= n,
            n <= a@.len(),
            n <= b@.len(),
            av == a@.map_values(|v: Vec<char>| v@),
            bv == b@.map_values(|v: Vec<char>| v@),
            forall|j: int| 0 <= j < i ==> av[j] == bv[j],
        decreases n - i,
    {
        if !chars_equal(&a[i], &b[i]) {
            assert(av.take(n as int)[i as int] != bv.take(n as int)[i as int]);
            return false;
        }
        i += 1;
    }
    assert(av.take(n as int) =~= bv.take(n as int));
    true
}

fn chars_equal(a: &Vec<char>, b: &Vec<char>) -> (r: bool)
    ensures
        r == (a@ == b@),
{
    if a.len() != b.len() {
        return false;
    }
    let mut i: usize = 0;
    while i < a.len()
        invariant
            i <= a@.len(),
            a@.len() == b@.len(),
            forall|j: int| 0 <= j < i ==> a@[j] == b@[j],
        decreases a@.len() - i,
    {
        if a[i] != b[i] {
            return false;
        }
        i += 1;
    }
    assert(a@ =~= b@);
    true
}

/// The tags of the file at `path` under the knowledge root `root`: the
/// directories between the root and the file, each once in path order.
/// Where `path` does not lie under `root`, every directory of `path` counts.
pub fn extract_tags_from_path(path: &str, root: &str) -> (tags: Vec<String>)
    ensures
        tags@.map_values(|t: String| t@) == tags_of(path@, root@),
{
    let pc = path_components(path);
    let rc = path_components(root);
    let ghost pv = pc@.map_values(|v: Vec<char>| v@);
    let ghost rv = rc@.map_values(|v: Vec<char>| v@);
    let start: usize = if rc.len() <= pc.len() && same_components(&pc, &rc, rc.len()) { rc.len() } else { 0 };
    proof {
        assert(rv.take(rc@.len() as int) =~= rv);
        if start == 0 {
            assert(pv.skip(0) =~= pv);
        }
    }
    let ghost stripped = pv.skip(start as int);
    assert(stripped == strip_components(pv, rv));
    let end: usize = if pc.len() > start && !(pc[pc.len() - 1].len() == 1 && pc[pc.len() - 1][0] == '/') {
        pc.len() - 1
    } else {
        start
    };
    proof {
        if pc@.len() > start {
            let l = pc@[pc@.len() - 1]@;
            assert(stripped.last() == l);
            if l.len() == 1 {
                assert((l == seq!['/']) == (l[0] == '/')) by {
                    if l[0] == '/' {
                        assert(l =~= seq!['/']);
                    }
                }
            } else {
                assert(l != seq!['/']);
            }
        }
    }
    let ghost parent = pv.subrange(start as int, end as int);
    assert(parent =~= parent_components(stripped));
    let mut tags: Vec<String> = Vec::new();
    let mut i: usize = start;
    while i < end
        invariant
            start <= i <= end,
            end <= pc@.len(),
            pv == pc@.map_values(|v: Vec<char>| v@),
            tags@.map_values(|t: String| t@) == pv.subrange(start as int, i as int),
        decreases end - i,
    {
        let t = string_from_chars(&pc[i]);
        let ghost before = tags@.map_values(|t: String| t@);
        tags.push(t);
        assert(tags@.map_values(|t: String| t@) =~= before.push(pc@[i as int]@));
        assert(pv.subrange(start as int, i + 1) =~= pv.subrange(start as int, i as int).push(pv[i as int]));
        i += 1;
    }
    tags
}


/// Whether `c` is an ASCII letter or digit.
pub open spec fn ascii_alnum(c: char) -> bool {
    ('0' <= c <= '9') || ('a' <= c <= 'z') || ('A' <= c <= 'Z')
}

/// Whether `c` is ASCII punctuation.
pub open spec fn ascii_punct(c: char) -> bool {
    ('!' <= c <= '/') || (':' <= c <= '@') || ('[' <= c <= '`') || ('{' <= c <= '~')
}

/// Whether `c` ends a word of the character scan.
pub open spec fn breaks_word(c: char) -> bool {
    ascii_alnum(c) || is_white_space(c) || ascii_punct(c)
}

/// Whether `w` holds an ASCII character.
pub open spec fn has_ascii(w: Seq<char>) -> bool {
    exists|i: int| 0 <= i < w.len() && (w[i] as u32) < 0x80
}

/// `out` with `w` added where it is a keyword.
pub open spec fn keep(out: Seq<Seq<char>>, w: Seq<char>) -> Seq<Seq<char>> {
    if w.len() > 0 && is_keyword(w) {
        out.push(w)
    } else {
        out
    }
}

/// One character of the scan: the word being built and the words kept.
/// ASCII letters, digits, white space and punctuation end the current word,
/// and a letter or digit starts a new one; another character ends a word
/// holding ASCII and is added to the current word.
pub open spec fn scan_step(st: (Seq<char>, Seq<Seq<char>>), c: char) -> (Seq<char>, Seq<Seq<char>>) {
    let cur = st.0;
    let out = st.1;
    if breaks_word(c) {
        (if ascii_alnum(c) { seq![c] } else { Seq::empty() }, keep(out, cur))
    } else if cur.len() > 0 && has_ascii(cur) {
        (seq![c], keep(out, cur))
    } else {
        (cur.push(c), out)
    }
}

/// The scan over all of `s`.
pub open spec fn scan_state(s: Seq<char>) -> (Seq<char>, Seq<Seq<char>>)
    decreases s.len(),
{
    if s.len() == 0 {
        (Seq::empty(), Seq::empty())
    } else {
        scan_step(scan_state(s.drop_last()), s.last())
    }
}

/// The keywords of a query: its pieces between separators (the
/// ideographic full stop among them) that are keywords; where there are
/// none, the words of the character scan.
pub open spec fn query_keywords(s: Seq<char>) -> Seq<Seq<char>> {
    let k = keywords_of(pieces_by(s, true));
    if k.len() > 0 {
        k
    } else {
        let st = scan_state(s);
        keep(st.1, st.0)
    }
}

fn is_ascii_alnum(c: char) -> (r: bool)
    ensures
        r == ascii_alnum(c),
{
    ('0' <= c && c <= '9') || ('a' <= c && c <= 'z') || ('A' <= c && c <= 'Z')
}

fn is_ascii_punct(c: char) -> (r: bool)
    ensures
        r == ascii_punct(c),
{
    ('!' <= c && c <= '/') || (':' <= c && c <= '@') || ('[' <= c && c <= '`') || ('{' <= c && c <= '~')
}

fn holds_ascii(w: &Vec<char>) -> (r: bool)
    ensures
        r == has_ascii(w@),
{
    let mut i: usize = 0;
    while i < w.len()
        invariant
            i <= w@.len(),
            forall|j: int| 0 <= j < i ==> (w@[j] as u32) >= 0x80,
        decreases w@.len() - i,
    {
        if (w[i] as u32) < 0x80 {
            return true;
        }
        i += 1;
    }
    false
}

fn keep_word(out: &mut Vec<String>, w: &Vec<char>)
    ensures
        texts_of(final(out)@) == keep(texts_of(old(out)@), w@),
{
    let long = w.len() > 1 || (w.len() == 1 && (w[0] as u32) >= 0x80);
    if w.len() > 0 && long && !is_stop_word(w) {
        let ghost before = texts_of(out@);
        out.push(string_from_chars(w));
        assert(texts_of(out@) =~= before.push(w@));
    }
}

/// The keywords of the query `text`.
pub fn extract_query_keywords(text: &str) -> (k: Vec<String>)
    ensures
        texts_of(k@) == query_keywords(text@),
{
    let first = split_keywords(text, true);
    if first.len() > 0 {
        return first;
    }
    let cs = chars_of(text);
    let mut out: Vec<String> = Vec::new();
    let mut cur: Vec<char> = Vec::new();
    let mut i: usize = 0;
    assert(cs@.take(0) =~= Seq::<char>::empty());
    assert(texts_of(out@) =~= Seq::<Seq<char>>::empty());
    while i < cs.len()
        invariant
            i <= cs@.len(),
            cs@ == text@,
            scan_state(cs@.take(i as int)) == (cur@, texts_of(out@)),
        decreases cs@.len() - i,
    {
        let c = cs[i];
        assert(cs@.take(i + 1).drop_last() =~= cs@.take(i as int));
        assert(cs@.take(i + 1).last() == c);
        if is_ascii_alnum(c) || white_space(c) || is_ascii_punct(c) {
            keep_word(&mut out, &cur);
            cur = Vec::new();
            if is_ascii_alnum(c) {
                cur.push(c);
                assert(cur@ =~= seq![c]);
            } else {
                assert(cur@ =~= Seq::<char>::empty());
            }
        } else if cur.len() > 0 && holds_ascii(&cur) {
            keep_word(&mut out, &cur);
            cur = Vec::new();
            cur.push(c);
            assert(cur@ =~= seq![c]);
        } else {
            cur.push(c);
        }
        i += 1;
    }
    assert(cs@.take(i as int) =~= cs@);
    keep_word(&mut out, &cur);
    out
}

/// One more item of `s` taken: the filter grows by it where it passes.
pub(crate) proof fn lemma_filter_take_step<A>(s: Seq<A>, pred: spec_fn(A) -> bool, i: int)
    requires
        0 <= i < s.len(),
    ensures
        s.take(i + 1).filter(pred) == (if pred(s[i]) {
            s.take(i).filter(pred).push(s[i])
        } else {
            s.take(i).filter(pred)
        }),
{
    reveal(Seq::filter);
    assert(s.take(i + 1).drop_last() =~= s.take(i));
    assert(s.take(i + 1).last() == s[i]);
}

/// One more key of `ks` taken: the keys with score `v` grow by it where
/// its score is `v`.
proof fn lemma_with_score_step(ks: Seq<Seq<char>>, sc: spec_fn(Seq<char>) -> nat, v: nat, i: int)
    requires
        0 <= i < ks.len(),
    ensures
        with_score(ks.take(i + 1), sc, v) == (if sc(ks[i]) == v {
            with_score(ks.take(i), sc, v).push(ks[i])
        } else {
            with_score(ks.take(i), sc, v)
        }),
{
    reveal(Seq::filter);
    assert(ks.take(i + 1).drop_last() =~= ks.take(i));
    assert(ks.take(i + 1).last() == ks[i]);
}

/// A knowledge file.
pub struct KnowledgeNode {
    /// Path of the file
    pub path: PathBuf,
    /// Content hash
    pub content_hash: String,
    /// Tags from the directories the file lies in
    pub tags: Vec<String>,
    /// Paths of related files
    pub related: Vec<String>,
    /// Last access, in milliseconds since the Unix epoch
    pub last_accessed_ms: u64,
    /// The content, where kept
    pub content: Option<String>,
}

/// Numbers of the index.
#[derive(Debug, Clone, Copy)]
pub struct KnowledgeCounts {
    /// Files
    pub total_files: usize,
    /// Tags over all files
    pub total_tags: usize,
}

/// The knowledge files under a root directory, by path.
pub struct KnowledgeIndex {
    root: PathBuf,
    root_text: String,
    index: StrMap<KnowledgeNode>,
}

/// Whether `a` and `b` match as a query keyword and a tag: one contains
/// the other, case aside.
pub open spec fn tag_matches(t: Seq<char>, at: Seq<char>) -> bool {
    occurs_in(lowercase_of(at), lowercase_of(t)) || occurs_in(lowercase_of(t), lowercase_of(at))
}

/// Whether some tag of `tags` matches `t`.
pub open spec fn any_tag_matches(tags: Seq<Seq<char>>, t: Seq<char>) -> bool {
    exists|j: int| 0 <= j < tags.len() && tag_matches(t, tags[j])
}

/// How many query keywords of `q` some tag of `tags` matches.
pub open spec fn match_score(q: Seq<Seq<char>>, tags: Seq<Seq<char>>) -> nat
    decreases q.len(),
{
    if q.len() == 0 {
        0
    } else {
        match_score(q.drop_last(), tags) + if any_tag_matches(tags, q.last()) { 1nat } else { 0nat }
    }
}

/// Whether keywords `q1` and `q2` are the same up to case: as many, each
/// with the lowercase form of the other's at its place.
pub open spec fn same_but_case(q1: Seq<Seq<char>>, q2: Seq<Seq<char>>) -> bool {
    q1.len() == q2.len() && forall|j: int| 0 <= j < q1.len() ==> lowercase_of(#[trigger] q1[j]) == lowercase_of(q2[j])
}

/// Case does not decide a match: keywords with the same lowercase form
/// match the same tags, and tags with the same lowercase form are matched
/// by the same keywords.
pub proof fn law_tag_match_ignores_case(t1: Seq<char>, t2: Seq<char>, at1: Seq<char>, at2: Seq<char>)
    requires
        lowercase_of(t1) == lowercase_of(t2),
        lowercase_of(at1) == lowercase_of(at2),
    ensures
        tag_matches(t1, at1) == tag_matches(t2, at2),
{
}

/// A keyword matches a tag spelled with the same letters in any case, and
/// a tag that contains it or that it contains, case aside.
pub proof fn law_keyword_matches_tag_in_any_case(t: Seq<char>, at: Seq<char>)
    requires
        lowercase_of(t) == lowercase_of(at),
    ensures
        tag_matches(t, at),
{
    let l = lowercase_of(t);
    assert(l.subrange(0, l.len() as int) =~= l);
    assert(crate::text::occurs_at(lowercase_of(at), lowercase_of(t), 0));
}

/// A keyword finds a matching tag among `tags1` just when a keyword with
/// the same lowercase form finds one among tags the same up to case.
pub proof fn law_any_tag_ignores_case(tags1: Seq<Seq<char>>, tags2: Seq<Seq<char>>, t1: Seq<char>, t2: Seq<char>)
    requires
        same_but_case(tags1, tags2),
        lowercase_of(t1) == lowercase_of(t2),
    ensures
        any_tag_matches(tags1, t1) == any_tag_matches(tags2, t2),
{
    if any_tag_matches(tags1, t1) {
        let j = choose|j: int| 0 <= j < tags1.len() && tag_matches(t1, tags1[j]);
        assert(lowercase_of(tags1[j]) == lowercase_of(tags2[j]));
        assert(tag_matches(t2, tags2[j]));
    }
    if any_tag_matches(tags2, t2) {
        let j = choose|j: int| 0 <= j < tags2.len() && tag_matches(t2, tags2[j]);
        assert(lowercase_of(tags1[j]) == lowercase_of(tags2[j]));
        assert(tag_matches(t1, tags1[j]));
    }
}

/// The score of a file under a query, and so the files that `recommend`
/// gives and their order, does not change when the keywords or the tags
/// change case.
pub proof fn law_match_score_ignores_case(
    q1: Seq<Seq<char>>,
    q2: Seq<Seq<char>>,
    tags1: Seq<Seq<char>>,
    tags2: Seq<Seq<char>>,
)
    requires
        same_but_case(q1, q2),
        same_but_case(tags1, tags2),
    ensures
        match_score(q1, tags1) == match_score(q2, tags2),
    decreases q1.len(),
{
    if q1.len() > 0 {
        assert forall|j: int| 0 <= j < q1.drop_last().len() implies lowercase_of(#[trigger] q1.drop_last()[j])
            == lowercase_of(q2.drop_last()[j]) by {
            assert(lowercase_of(q1[j]) == lowercase_of(q2[j]));
        }
        law_match_score_ignores_case(q1.drop_last(), q2.drop_last(), tags1, tags2);
        assert(lowercase_of(q1[q1.len() - 1]) == lowercase_of(q2[q2.len() - 1]));
        law_any_tag_ignores_case(tags1, tags2, q1.last(), q2.last());
    }
}

/// The keys of `ks` whose score under `sc` is `v`.
pub open spec fn with_score(ks: Seq<Seq<char>>, sc: spec_fn(Seq<char>) -> nat, v: nat) -> Seq<Seq<char>> {
    ks.filter(|k: Seq<char>| sc(k) == v)
}

/// The keys of `ks` with scores `top`, `top - 1`, and so on for `n` scores,
/// highest first, each score's keys in the order of `ks`.
pub open spec fn ranked_down(ks: Seq<Seq<char>>, sc: spec_fn(Seq<char>) -> nat, top: nat, n: nat) -> Seq<Seq<char>>
    decreases n,
{
    if n == 0 {
        Seq::empty()
    } else {
        ranked_down(ks, sc, top, (n - 1) as nat) + with_score(ks, sc, (top - (n - 1)) as nat)
    }
}

/// The first `limit` items of `s`, or all where it has fewer.
pub open spec fn first_n<A>(s: Seq<A>, limit: nat) -> Seq<A> {
    if limit >= s.len() {
        s
    } else {
        s.take(limit as int)
    }
}

/// The number of tags of the files at `ks` in `m`.
pub open spec fn tag_total(ks: Seq<Seq<char>>, m: Map<Seq<char>, KnowledgeNode>) -> nat
    decreases ks.len(),
{
    if ks.len() == 0 {
        0
    } else {
        tag_total(ks.drop_last(), m) + m[ks.last()].tags@.len()
    }
}

impl KnowledgeIndex {
    /// The files, by path.
    pub closed spec fn nodes(&self) -> Map<Seq<char>, KnowledgeNode> {
        self.index.contents()
    }

    /// The paths in the order the index keeps them.
    pub closed spec fn path_order(&self) -> Seq<Seq<char>> {
        self.index.key_seq()
    }

    /// The root directory, as text.
    pub closed spec fn root_spec(&self) -> Seq<char> {
        self.root_text@
    }

    /// The root directory.
    pub closed spec fn root_path(&self) -> PathBuf {
        self.root
    }

    /// An empty index of the knowledge files under `root`.
    pub fn new(root: &str) -> (k: Self)
        ensures
            k.nodes() == Map::<Seq<char>, KnowledgeNode>::empty(),
            k.root_spec() == root@,
            k.root_path() == path_of(root@),
    {
        KnowledgeIndex { root: path_from(root), root_text: String::from_str(root), index: StrMap::new() }
    }

    /// The root directory.
    pub fn root(&self) -> (p: &PathBuf)
        ensures
            *p == self.root_path(),
    {
        &self.root
    }

    /// The score of each path under the query keywords `q`: how many of
    /// them some tag of the file matches.
    pub open spec fn tag_score(&self, q: Seq<Seq<char>>) -> spec_fn(Seq<char>) -> nat {
        |k: Seq<char>| match_score(q, texts_of(self.nodes()[k].tags@))
    }

    /// Queries whose keywords are the same up to case score every file
    /// alike, so `recommend` gives the same files in the same order.
    pub proof fn law_recommend_ignores_case(&self, q1: Seq<Seq<char>>, q2: Seq<Seq<char>>)
        requires
            same_but_case(q1, q2),
        ensures
            self.tag_score(q1) == self.tag_score(q2),
    {
        assert forall|k: Seq<char>| #[trigger] self.tag_score(q1)(k) == self.tag_score(q2)(k) by {
            let tags = texts_of(self.nodes()[k].tags@);
            assert(same_but_case(tags, tags));
            law_match_score_ignores_case(q1, q2, tags, tags);
        }
        assert(self.tag_score(q1) =~= self.tag_score(q2));
    }

    /// The numbers of files and of tags over all files.
    pub fn stats(&self) -> (c: KnowledgeCounts)
        requires
            tag_total(self.path_order(), self.nodes()) <= usize::MAX,
        ensures
            c.total_files == self.nodes().dom().len(),
            c.total_tags == tag_total(self.path_order(), self.nodes()),
    {
        let keys = self.index.keys();
        let ghost ks = self.path_order();
        let mut total: usize = 0;
        let mut i: usize = 0;
        while i < keys.len()
            invariant
                i <= keys@.len(),
                keys@.map_values(|k: String| k@) == ks,
                ks == self.path_order(),
                tag_total(ks, self.nodes()) <= usize::MAX,
                forall|j: int| 0 <= j < keys@.len() ==> self.nodes().dom().contains(#[trigger] keys@[j]@),
                total == tag_total(ks.take(i as int), self.nodes()),
            decreases keys@.len() - i,
        {
            assert(keys@[i as int]@ == ks[i as int]);
            assert(ks.take(i + 1).drop_last() =~= ks.take(i as int));
            proof {
                lemma_tag_total_prefix(ks, self.nodes(), i + 1);
            }
            match self.index.get(keys[i].as_str()) {
                Some(n) => {
                    total = total + n.tags.len();
                },
                None => {},
            }
            i += 1;
        }
        assert(ks.take(i as int) =~= ks);
        KnowledgeCounts { total_files: self.index.len(), total_tags: total }
    }

    /// The files with a tag that matches a keyword of `query`, at most
    /// `limit` of them: those matched by the most keywords first, in the
    /// order of the index among equals.
    pub fn recommend(&self, query: &str, limit: usize) -> (r: Vec<&KnowledgeNode>)
        ensures
            ({
                let q = query_keywords(query@);
                let ks = first_n(ranked_down(self.path_order(), self.tag_score(q), q.len(), q.len()), limit as nat);
                &&& r@.len() == ks.len()
                &&& forall|i: int| 0 <= i < r@.len() ==> *r@[i] == self.nodes()[ks[i]]
            }),
    {
        let q = extract_query_keywords(query);
        let ghost qs = texts_of(q@);
        let ghost sc = self.tag_score(qs);
        let lq = lowered_all(&q);
        let keys = self.index.keys();
        let ghost ks = self.path_order();
        let mut scores: Vec<usize> = Vec::new();
        let mut i: usize = 0;
        while i < keys.len()
            invariant
                i <= keys@.len(),
                keys@.map_values(|k: String| k@) == ks,
                ks == self.path_order(),
                qs == texts_of(q@),
                sc == self.tag_score(qs),
                lq@.len() == q@.len(),
                forall|j: int| 0 <= j < q@.len() ==> (#[trigger] lq@[j])@ == lowercase_of(q@[j]@),
                forall|j: int| 0 <= j < keys@.len() ==> self.nodes().dom().contains(#[trigger] keys@[j]@),
                scores@.len() == i,
                forall|j: int| 0 <= j < i ==> scores@[j] == sc(ks[j]),
            decreases keys@.len() - i,
        {
            assert(keys@[i as int]@ == ks[i as int]);
            match self.index.get(keys[i].as_str()) {
                Some(n) => {
                    let v = node_score(&n.tags, &q, &lq);
                    scores.push(v);
                },
                None => {},
            }
            i += 1;
        }
        let n_q = q.len();
        let mut found: Vec<String> = Vec::new();
        let mut d: usize = 0;
        assert(found@.map_values(|k: String| k@) =~= ranked_down(ks, sc, n_q as nat, 0));
        while d < n_q
            invariant
                d <= n_q,
                n_q == qs.len(),
                keys@.map_values(|k: String| k@) == ks,
                ks == self.path_order(),
                scores@.len() == keys@.len(),
                forall|j: int| 0 <= j < keys@.len() ==> scores@[j] == sc(ks[j]),
                forall|j: int| 0 <= j < keys@.len() ==> self.nodes().dom().contains(#[trigger] keys@[j]@),
                found@.map_values(|k: String| k@) == ranked_down(ks, sc, n_q as nat, d as nat),
                forall|j: int| 0 <= j < found@.len() ==> self.nodes().dom().contains(#[trigger] found@[j]@),
            decreases n_q - d,
        {
            let v: usize = n_q - d;
            let ghost head = found@.map_values(|k: String| k@);
            let mut i: usize = 0;
            proof {
                reveal(Seq::filter);
                assert(with_score(ks.take(0), sc, v as nat) =~= Seq::<Seq<char>>::empty());
            }
            assert(head + with_score(ks.take(0), sc, v as nat) =~= head);
            while i < keys.len()
                invariant
                    i <= keys@.len(),
                    keys@.map_values(|k: String| k@) == ks,
                    scores@.len() == keys@.len(),
                    forall|j: int| 0 <= j < keys@.len() ==> scores@[j] == sc(ks[j]),
                    forall|j: int| 0 <= j < keys@.len() ==> self.nodes().dom().contains(#[trigger] keys@[j]@),
                    found@.map_values(|k: String| k@) == head + with_score(ks.take(i as int), sc, v as nat),
                    forall|j: int| 0 <= j < found@.len() ==> self.nodes().dom().contains(#[trigger] found@[j]@),
                decreases keys@.len() - i,
            {
                assert(keys@[i as int]@ == ks[i as int]);
                proof {
                    lemma_with_score_step(ks, sc, v as nat, i as int);
                }
                if scores[i] == v {
                    let ghost before = found@.map_values(|k: String| k@);
                    found.push(String::from_str(keys[i].as_str()));
                    assert(found@.map_values(|k: String| k@) =~= before.push(ks[i as int]));
                    assert(head + with_score(ks.take(i + 1), sc, v as nat) =~= (head + with_score(ks.take(i as int), sc, v as nat)).push(ks[i as int]));
                }
                i += 1;
            }
            assert(ks.take(i as int) =~= ks);
            d += 1;
        }
        let ghost all = found@.map_values(|k: String| k@);
        if limit < found.len() {
            found.truncate(limit);
            assert(found@.map_values(|k: String| k@) =~= all.take(limit as int));
        }
        let r = self.nodes_in_order(&found);
        proof {
            let rk = first_n(ranked_down(ks, sc, n_q as nat, n_q as nat), limit as nat);
            assert forall|j: int| 0 <= j < found@.len() implies found@[j]@ == rk[j] by {
                assert(found@.map_values(|k: String| k@)[j] == found@[j]@);
            }
        }
        r
    }

    /// The node of `path`, if indexed.
    pub fn get(&self, path: &str) -> (r: Option<&KnowledgeNode>)
        ensures
            match r {
                Some(n) => self.nodes().dom().contains(path@) && *n == self.nodes()[path@],
                None => !self.nodes().dom().contains(path@),
            },
    {
        self.index.get(path)
    }

    fn node_for(&self, path: &str, content: &String, now_ms: u64) -> (n: KnowledgeNode)
        ensures
            n.path == path_of(path@),
            n.content_hash@ == hex_text(sha256_of(encode_utf8(content@))),
            texts_of(n.tags@) == tags_of(path@, self.root_spec()),
            n.related@.len() == 0,
            n.last_accessed_ms == now_ms,
            n.content matches Some(c) && c@ == content@,
    {
        let tags = extract_tags_from_path(path, self.root_text.as_str());
        proof {
            assert(texts_of(tags@) =~= tags@.map_values(|t: String| t@));
        }
        KnowledgeNode {
            path: path_from(path),
            content_hash: sha256_hex(content.as_str().as_bytes()),
            tags,
            related: Vec::new(),
            last_accessed_ms: now_ms,
            content: Some(String::from_str(content.as_str())),
        }
    }

    /// Indexes the file at `path` with `content`, read at `now_ms`: its
    /// hash, its tags from the directories under the root, no relations.
    pub fn add_file(&mut self, path: &str, content: String, now_ms: u64)
        ensures
            final(self).root_spec() == old(self).root_spec(),
            final(self).root_path() == old(self).root_path(),
            final(self).nodes().dom() == old(self).nodes().dom().insert(path@),
            forall|k: Seq<char>| k != path@ && old(self).nodes().dom().contains(k) ==> final(self).nodes()[k] == old(self).nodes()[k],
            ({
                let n = final(self).nodes()[path@];
                &&& n.path == path_of(path@)
                &&& n.content_hash@ == hex_text(sha256_of(encode_utf8(content@)))
                &&& texts_of(n.tags@) == tags_of(path@, old(self).root_spec())
                &&& n.related@.len() == 0
                &&& n.last_accessed_ms == now_ms
                &&& n.content matches Some(c) && c@ == content@
            }),
    {
        let n = self.node_for(path, &content, now_ms);
        self.index.insert(String::from_str(path), n);
    }

    /// Indexes the changed file at `path` with `content`, read at `now_ms`:
    /// a file indexed already keeps its path and relations and takes the new
    /// hash, tags, content and access time; another is added.
    pub fn update_file(&mut self, path: &str, content: String, now_ms: u64)
        ensures
            final(self).root_spec() == old(self).root_spec(),
            final(self).root_path() == old(self).root_path(),
            final(self).nodes().dom() == old(self).nodes().dom().insert(path@),
            forall|k: Seq<char>| k != path@ && old(self).nodes().dom().contains(k) ==> final(self).nodes()[k] == old(self).nodes()[k],
            ({
                let n = final(self).nodes()[path@];
                &&& n.content_hash@ == hex_text(sha256_of(encode_utf8(content@)))
                &&& texts_of(n.tags@) == tags_of(path@, old(self).root_spec())
                &&& n.last_accessed_ms == now_ms
                &&& n.content matches Some(c) && c@ == content@
                &&& old(self).nodes().dom().contains(path@) ==> n.path == old(self).nodes()[path@].path
                    && n.related == old(self).nodes()[path@].related
                &&& !old(self).nodes().dom().contains(path@) ==> n.path == path_of(path@) && n.related@.len() == 0
            }),
    {
        let fresh = self.node_for(path, &content, now_ms);
        let n = match self.index.remove(path) {
            Some(old_node) => KnowledgeNode { path: old_node.path, related: old_node.related, ..fresh },
            None => fresh,
        };
        self.index.insert(String::from_str(path), n);
    }

    /// Drops the file at `path` from the index.
    pub fn remove_file(&mut self, path: &str)
        ensures
            final(self).nodes() == old(self).nodes().remove(path@),
            final(self).root_spec() == old(self).root_spec(),
            final(self).root_path() == old(self).root_path(),
    {
        let _ = self.index.remove(path);
    }

    /// Sets the related files of `path`; false where it is not indexed.
    pub fn set_related(&mut self, path: &str, related: Vec<String>) -> (r: bool)
        ensures
            r == old(self).nodes().dom().contains(path@),
            final(self).nodes().dom() == old(self).nodes().dom(),
            forall|k: Seq<char>| k != path@ && old(self).nodes().dom().contains(k) ==> final(self).nodes()[k] == old(self).nodes()[k],
            r ==> final(self).nodes()[path@] == (KnowledgeNode { related, ..old(self).nodes()[path@] }),
            final(self).root_spec() == old(self).root_spec(),
            final(self).root_path() == old(self).root_path(),
    {
        match self.index.remove(path) {
            Some(n) => {
                self.index.insert(String::from_str(path), KnowledgeNode { related, ..n });
                proof {
                    assert(self.nodes().dom() =~= old(self).nodes().dom());
                }
                true
            },
            None => {
                proof {
                    assert(old(self).nodes().remove(path@) =~= old(self).nodes());
                }
                false
            },
        }
    }

    fn nodes_in_order(&self, keys: &Vec<String>) -> (r: Vec<&KnowledgeNode>)
        requires
            forall|i: int| 0 <= i < keys@.len() ==> self.nodes().dom().contains(#[trigger] keys@[i]@),
        ensures
            r@.len() == keys@.len(),
            forall|i: int| 0 <= i < r@.len() ==> *r@[i] == self.nodes()[keys@[i]@],
    {
        let mut r: Vec<&KnowledgeNode> = Vec::new();
        let mut i: usize = 0;
        while i < keys.len()
            invariant
                i <= keys@.len(),
                r@.len() == i,
                forall|j: int| 0 <= j < keys@.len() ==> self.nodes().dom().contains(#[trigger] keys@[j]@),
                forall|j: int| 0 <= j < i ==> *r@[j] == self.nodes()[keys@[j]@],
            decreases keys@.len() - i,
        {
            assert(self.nodes().dom().contains(keys@[i as int]@));
            match self.index.get(keys[i].as_str()) {
                Some(n) => r.push(n),
                None => {},
            }
            i += 1;
        }
        r
    }

    /// Every indexed file, in the order of the index.
    pub fn all_nodes(&self) -> (r: Vec<&KnowledgeNode>)
        ensures
            r@.len() == self.path_order().len(),
            forall|i: int| 0 <= i < r@.len() ==> *r@[i] == self.nodes()[self.path_order()[i]],
    {
        let keys = self.index.keys();
        proof {
            assert forall|i: int| 0 <= i < keys@.len() implies keys@[i]@ == self.path_order()[i] by {
                assert(keys@.map_values(|k: String| k@)[i] == keys@[i]@);
            }
        }
        self.nodes_in_order(&keys)
    }

    /// The indexed files with a tag equal to `tag`, case aside, in the
    /// order of the index.
    pub fn find_by_tag(&self, tag: &str) -> (r: Vec<&KnowledgeNode>)
        ensures
            ({
                let ks = self.path_order().filter(|k: Seq<char>| has_tag(texts_of(self.nodes()[k].tags@), tag@));
                &&& r@.len() == ks.len()
                &&& forall|i: int| 0 <= i < r@.len() ==> *r@[i] == self.nodes()[ks[i]]
            }),
    {
        let keys = self.index.keys();
        let ghost ks = self.path_order();
        let ghost pred = |k: Seq<char>| has_tag(texts_of(self.nodes()[k].tags@), tag@);
        let want = lowercase(tag);
        let mut found: Vec<String> = Vec::new();
        let mut i: usize = 0;
        assert(ks.take(0).filter(pred) =~= Seq::<Seq<char>>::empty());
        while i < keys.len()
            invariant
                i <= keys@.len(),
                keys@.map_values(|k: String| k@) == ks,
                ks == self.path_order(),
                want@ == lowercase_of(tag@),
                forall|k: Seq<char>| #[trigger] pred(k) == has_tag(texts_of(self.nodes()[k].tags@), tag@),
                forall|j: int| 0 <= j < keys@.len() ==> self.nodes().dom().contains(#[trigger] keys@[j]@),
                found@.map_values(|k: String| k@) == ks.take(i as int).filter(pred),
                forall|j: int| 0 <= j < found@.len() ==> self.nodes().dom().contains(#[trigger] found@[j]@),
            decreases keys@.len() - i,
        {
            assert(keys@[i as int]@ == ks[i as int]);
            assert(ks.take(i + 1).drop_last() =~= ks.take(i as int));
            assert(ks.take(i + 1).last() == ks[i as int]);
            proof {
                lemma_filter_take_step(ks, pred, i as int);
            }
            let k = keys[i].as_str();
            match self.index.get(k) {
                Some(n) => {
                    proof {
                        let tv = texts_of(n.tags@);
                        assert forall|j: int| 0 <= j < n.tags@.len() implies tv[j] == #[trigger] n.tags@[j]@ by {}
                        assert(pred(ks[i as int]) == has_tag(tv, tag@));
                    }
                    if tags_include(&n.tags, want.as_str()) {
                        let ghost before = found@.map_values(|k: String| k@);
                        found.push(String::from_str(k));
                        assert(found@.map_values(|k: String| k@) =~= before.push(ks[i as int]));
                    }
                },
                None => {},
            }
            i += 1;
        }
        assert(ks.take(i as int) =~= ks);
        let r = self.nodes_in_order(&found);
        proof {
            assert forall|j: int| 0 <= j < found@.len() implies found@[j]@ == ks.filter(pred)[j] by {
                assert(found@.map_values(|k: String| k@)[j] == found@[j]@);
            }
        }
        r
    }

    /// The indexed files whose path contains `dir_path` with its trailing
    /// slashes removed, in the order of the index.
    pub fn find_by_directory(&self, dir_path: &str) -> (r: Vec<&KnowledgeNode>)
        ensures
            ({
                let ks = self.path_order().filter(|k: Seq<char>| occurs_in(k, trim_slashes(dir_path@)));
                &&& r@.len() == ks.len()
                &&& forall|i: int| 0 <= i < r@.len() ==> *r@[i] == self.nodes()[ks[i]]
            }),
    {
        let keys = self.index.keys();
        let ghost ks = self.path_order();
        let ghost pred = |k: Seq<char>| occurs_in(k, trim_slashes(dir_path@));
        let trimmed = trimmed_slashes(dir_path);
        let mut found: Vec<String> = Vec::new();
        let mut i: usize = 0;
        assert(ks.take(0).filter(pred) =~= Seq::<Seq<char>>::empty());
        while i < keys.len()
            invariant
                i <= keys@.len(),
                keys@.map_values(|k: String| k@) == ks,
                ks == self.path_order(),
                trimmed@ == trim_slashes(dir_path@),
                forall|k: Seq<char>| #[trigger] pred(k) == occurs_in(k, trim_slashes(dir_path@)),
                forall|j: int| 0 <= j < keys@.len() ==> self.nodes().dom().contains(#[trigger] keys@[j]@),
                found@.map_values(|k: String| k@) == ks.take(i as int).filter(pred),
                forall|j: int| 0 <= j < found@.len() ==> self.nodes().dom().contains(#[trigger] found@[j]@),
            decreases keys@.len() - i,
        {
            assert(keys@[i as int]@ == ks[i as int]);
            assert(ks.take(i + 1).drop_last() =~= ks.take(i as int));
            assert(ks.take(i + 1).last() == ks[i as int]);
            proof {
                lemma_filter_take_step(ks, pred, i as int);
            }
            if contains_text(keys[i].as_str(), trimmed.as_str()) {
                let ghost before = found@.map_values(|k: String| k@);
                found.push(String::from_str(keys[i].as_str()));
                assert(found@.map_values(|k: String| k@) =~= before.push(ks[i as int]));
            }
            i += 1;
        }
        assert(ks.take(i as int) =~= ks);
        let r = self.nodes_in_order(&found);
        proof {
            assert forall|j: int| 0 <= j < found@.len() implies found@[j]@ == ks.filter(pred)[j] by {
                assert(found@.map_values(|k: String| k@)[j] == found@[j]@);
            }
        }
        r
    }

    /// The indexed files whose path the wildcard `pattern` matches, in the
    /// order of the index; none where the pattern is no regular expression.
    pub fn find_by_wildcard(&self, pattern: &str) -> (r: Vec<&KnowledgeNode>)
        ensures
            ({
                let ks = self.path_order().filter(|k: Seq<char>| wildcard_hit(pattern@, k));
                &&& r@.len() == ks.len()
                &&& forall|i: int| 0 <= i < r@.len() ==> *r@[i] == self.nodes()[ks[i]]
            }),
    {
        let keys = self.index.keys();
        let ghost ks = self.path_order();
        let ghost pred = |k: Seq<char>| wildcard_hit(pattern@, k);
        let re = wildcard_regex(pattern);
        let mut found: Vec<String> = Vec::new();
        let mut i: usize = 0;
        assert(ks.take(0).filter(pred) =~= Seq::<Seq<char>>::empty());
        while i < keys.len()
            invariant
                i <= keys@.len(),
                keys@.map_values(|k: String| k@) == ks,
                ks == self.path_order(),
                re@ == star_expanded(pattern@),
                forall|k: Seq<char>| #[trigger] pred(k) == wildcard_hit(pattern@, k),
                forall|j: int| 0 <= j < keys@.len() ==> self.nodes().dom().contains(#[trigger] keys@[j]@),
                found@.map_values(|k: String| k@) == ks.take(i as int).filter(pred),
                forall|j: int| 0 <= j < found@.len() ==> self.nodes().dom().contains(#[trigger] found@[j]@),
            decreases keys@.len() - i,
        {
            assert(keys@[i as int]@ == ks[i as int]);
            proof {
                lemma_filter_take_step(ks, pred, i as int);
            }
            let hit = match regex_match(re.as_str(), keys[i].as_str()) {
                Some(b) => b,
                None => false,
            };
            if hit {
                let ghost before = found@.map_values(|k: String| k@);
                found.push(String::from_str(keys[i].as_str()));
                assert(found@.map_values(|k: String| k@) =~= before.push(ks[i as int]));
            }
            i += 1;
        }
        assert(ks.take(i as int) =~= ks);
        let r = self.nodes_in_order(&found);
        proof {
            assert forall|j: int| 0 <= j < found@.len() implies found@[j]@ == ks.filter(pred)[j] by {
                assert(found@.map_values(|k: String| k@)[j] == found@[j]@);
            }
        }
        r
    }

    /// The files related to `path` that are indexed, at most `limit` of
    /// them; none where `path` is not indexed.
    pub fn get_related(&self, path: &str, limit: usize) -> (r: Vec<&KnowledgeNode>)
        ensures
            !self.nodes().dom().contains(path@) ==> r@.len() == 0,
            self.nodes().dom().contains(path@) ==> {
                let ks = first_n(
                    texts_of(self.nodes()[path@].related@).filter(|k: Seq<char>| self.nodes().dom().contains(k)),
                    limit as nat,
                );
                &&& r@.len() == ks.len()
                &&& forall|i: int| 0 <= i < r@.len() ==> *r@[i] == self.nodes()[ks[i]]
            },
    {
        let node = match self.index.get(path) {
            Some(n) => n,
            None => {
                return Vec::new();
            },
        };
        let ghost rel = texts_of(node.related@);
        let ghost pred = |k: Seq<char>| self.nodes().dom().contains(k);
        let mut found: Vec<String> = Vec::new();
        let mut i: usize = 0;
        assert(rel.take(0).filter(pred) =~= Seq::<Seq<char>>::empty());
        while i < node.related.len()
            invariant
                i <= node.related@.len(),
                rel == texts_of(node.related@),
                forall|k: Seq<char>| #[trigger] pred(k) == self.nodes().dom().contains(k),
                found@.map_values(|k: String| k@) == rel.take(i as int).filter(pred),
                forall|j: int| 0 <= j < found@.len() ==> self.nodes().dom().contains(#[trigger] found@[j]@),
            decreases node.related@.len() - i,
        {
            assert(rel.take(i + 1).drop_last() =~= rel.take(i as int));
            assert(rel.take(i + 1).last() == node.related@[i as int]@);
            proof {
                assert(rel[i as int] == node.related@[i as int]@);
                lemma_filter_take_step(rel, pred, i as int);
            }
            let k = node.related[i].as_str();
            if self.index.contains_key(k) {
                let ghost before = found@.map_values(|k: String| k@);
                found.push(String::from_str(k));
                assert(found@.map_values(|k: String| k@) =~= before.push(k@));
            }
            i += 1;
        }
        assert(rel.take(i as int) =~= rel);
        let ghost all = found@.map_values(|k: String| k@);
        if limit < found.len() {
            found.truncate(limit);
            assert(found@.map_values(|k: String| k@) =~= all.take(limit as int));
        }
        let r = self.nodes_in_order(&found);
        proof {
            let ks = first_n(rel.filter(pred), limit as nat);
            assert forall|j: int| 0 <= j < found@.len() implies found@[j]@ == ks[j] by {
                assert(found@.map_values(|k: String| k@)[j] == found@[j]@);
            }
        }
        r
    }
}

/// Whether some tag of `tags` equals `tag`, case aside.
pub open spec fn has_tag(tags: Seq<Seq<char>>, tag: Seq<char>) -> bool {
    exists|j: int| 0 <= j < tags.len() && lowercase_of(tags[j]) == lowercase_of(tag)
}

fn tags_include(tags: &Vec<String>, lowered: &str) -> (r: bool)
    ensures
        r == (exists|j: int| 0 <= j < tags@.len() && lowercase_of(tags@[j]@) == lowered@),
{
    let mut i: usize = 0;
    while i < tags.len()
        invariant
            i <= tags@.len(),
            forall|j: int| 0 <= j < i ==> lowercase_of(tags@[j]@) != lowered@,
        decreases tags@.len() - i,
    {
        let l = lowercase(tags[i].as_str());
        if crate::text::same_text(l.as_str(), lowered) {
            return true;
        }
        i += 1;
    }
    false
}

/// `s` without its trailing slashes.
pub open spec fn trim_slashes(s: Seq<char>) -> Seq<char>
    decreases s.len(),
{
    if s.len() > 0 && s.last() == '/' {
        trim_slashes(s.drop_last())
    } else {
        s
    }
}

fn trimmed_slashes(s: &str) -> (r: String)
    ensures
        r@ == trim_slashes(s@),
{
    let cs = chars_of(s);
    let mut n: usize = cs.len();
    assert(cs@.take(n as int) =~= cs@);
    while n > 0 && cs[n - 1] == '/'
        invariant
            n <= cs@.len(),
            cs@ == s@,
            trim_slashes(s@) == trim_slashes(cs@.take(n as int)),
        decreases n,
    {
        assert(cs@.take(n as int).drop_last() =~= cs@.take(n - 1));
        n -= 1;
    }
    let mut out: Vec<char> = Vec::new();
    let mut i: usize = 0;
    while i < n
        invariant
            i <= n <= cs@.len(),
            out@ == cs@.take(i as int),
        decreases n - i,
    {
        out.push(cs[i]);
        assert(cs@.take(i + 1) =~= cs@.take(i as int).push(cs@[i as int]));
        i += 1;
    }
    proof {
        let t = cs@.take(n as int);
        if n > 0 {
            assert(t.last() == cs@[n - 1]);
        }
        assert(trim_slashes(t) == t);
        if n == cs@.len() {
            assert(cs@.take(n as int) =~= cs@);
        }
    }
    string_from_chars(&out)
}

proof fn lemma_tag_total_prefix(ks: Seq<Seq<char>>, m: Map<Seq<char>, KnowledgeNode>, n: int)
    requires
        0 <= n <= ks.len(),
    ensures
        tag_total(ks.take(n), m) <= tag_total(ks, m),
    decreases ks.len(),
{
    if n < ks.len() {
        assert(ks.drop_last().take(n) =~= ks.take(n));
        lemma_tag_total_prefix(ks.drop_last(), m, n);
    } else {
        assert(ks.take(n) =~= ks);
    }
}

fn lowered_all(q: &Vec<String>) -> (lq: Vec<String>)
    ensures
        lq@.len() == q@.len(),
        forall|j: int| 0 <= j < q@.len() ==> (#[trigger] lq@[j])@ == lowercase_of(q@[j]@),
{
    let mut lq: Vec<String> = Vec::new();
    let mut i: usize = 0;
    while i < q.len()
        invariant
            i <= q@.len(),
            lq@.len() == i,
            forall|j: int| 0 <= j < i ==> (#[trigger] lq@[j])@ == lowercase_of(q@[j]@),
        decreases q@.len() - i,
    {
        lq.push(lowercase(q[i].as_str()));
        i += 1;
    }
    lq
}

fn any_tag_hit(tags: &Vec<String>, t: &str, lt: &str) -> (r: bool)
    requires
        lt@ == lowercase_of(t@),
    ensures
        r == any_tag_matches(texts_of(tags@), t@),
{
    let ghost tv = texts_of(tags@);
    let mut i: usize = 0;
    while i < tags.len()
        invariant
            i <= tags@.len(),
            tv == texts_of(tags@),
            lt@ == lowercase_of(t@),
            forall|j: int| 0 <= j < i ==> !tag_matches(t@, tv[j]),
        decreases tags@.len() - i,
    {
        assert(tv[i as int] == tags@[i as int]@);
        let la = lowercase(tags[i].as_str());
        if contains_text(la.as_str(), lt) || contains_text(lt, la.as_str()) {
            assert(tag_matches(t@, tv[i as int]));
            return true;
        }
        i += 1;
    }
    false
}

fn node_score(tags: &Vec<String>, q: &Vec<String>, lq: &Vec<String>) -> (r: usize)
    requires
        lq@.len() == q@.len(),
        forall|j: int| 0 <= j < q@.len() ==> (#[trigger] lq@[j])@ == lowercase_of(q@[j]@),
    ensures
        r == match_score(texts_of(q@), texts_of(tags@)),
{
    let ghost qs = texts_of(q@);
    let ghost tv = texts_of(tags@);
    let mut count: usize = 0;
    let mut j: usize = 0;
    assert(qs.take(0) =~= Seq::<Seq<char>>::empty());
    while j < q.len()
        invariant
            j <= q@.len(),
            qs == texts_of(q@),
            tv == texts_of(tags@),
            lq@.len() == q@.len(),
            forall|k: int| 0 <= k < q@.len() ==> (#[trigger] lq@[k])@ == lowercase_of(q@[k]@),
            count <= j,
            count == match_score(qs.take(j as int), tv),
        decreases q@.len() - j,
    {
        assert(qs.take(j + 1).drop_last() =~= qs.take(j as int));
        assert(qs.take(j + 1).last() == q@[j as int]@);
        assert(lq@[j as int]@ == lowercase_of(q@[j as int]@));
        if any_tag_hit(tags, q[j].as_str(), lq[j].as_str()) {
            count += 1;
        }
        j += 1;
    }
    assert(qs.take(j as int) =~= qs);
    count
}

/// How many tags of `a` are also tags of `b`, counted with repeats in `a`.
pub open spec fn shared_tag_count(a: Seq<Seq<char>>, b: Seq<Seq<char>>) -> nat
    decreases a.len(),
{
    if a.len() == 0 {
        0
    } else {
        shared_tag_count(a.drop_last(), b) + if b.contains(a.last()) { 1nat } else { 0nat }
    }
}

/// How many tags of `a` are also tags of `b`: the overlap on which the
/// relation of two files rests.
pub fn tag_overlap(a: &Vec<String>, b: &Vec<String>) -> (n: usize)
    ensures
        n == shared_tag_count(texts_of(a@), texts_of(b@)),
        n <= a@.len(),
{
    let ghost av = texts_of(a@);
    let ghost bv = texts_of(b@);
    let mut n: usize = 0;
    let mut i: usize = 0;
    assert(av.take(0) =~= Seq::<Seq<char>>::empty());
    while i < a.len()
        invariant
            i <= a@.len(),
            av == texts_of(a@),
            bv == texts_of(b@),
            n <= i,
            n == shared_tag_count(av.take(i as int), bv),
        decreases a@.len() - i,
    {
        assert(av.take(i + 1).drop_last() =~= av.take(i as int));
        assert(av.take(i + 1).last() == a@[i as int]@);
        if holds_text(b, a[i].as_str()) {
            n += 1;
        }
        i += 1;
    }
    assert(av.take(i as int) =~= av);
    n
}

fn holds_text(v: &Vec<String>, t: &str) -> (r: bool)
    ensures
        r == texts_of(v@).contains(t@),
{
    let ghost tv = texts_of(v@);
    let mut i: usize = 0;
    while i < v.len()
        invariant
            i <= v@.len(),
            tv == texts_of(v@),
            forall|j: int| 0 <= j < i ==> tv[j] != t@,
        decreases v@.len() - i,
    {
        assert(tv[i as int] == v@[i as int]@);
        if crate::text::same_text(v[i].as_str(), t) {
            return true;
        }
        i += 1;
    }
    false
}

/// `p` with each `*` written as `.*`.
pub open spec fn star_expanded(p: Seq<char>) -> Seq<char>
    decreases p.len(),
{
    if p.len() == 0 {
        Seq::empty()
    } else if p.last() == '*' {
        star_expanded(p.drop_last()) + seq!['.', '*']
    } else {
        star_expanded(p.drop_last()).push(p.last())
    }
}

/// The regular expression of the wildcard pattern `p`: each `*` becomes
/// `.*`.
pub fn wildcard_regex(p: &str) -> (r: String)
    ensures
        r@ == star_expanded(p@),
{
    let cs = chars_of(p);
    let mut out: Vec<char> = Vec::new();
    let mut i: usize = 0;
    assert(cs@.take(0) =~= Seq::<char>::empty());
    while i < cs.len()
        invariant
            i <= cs@.len(),
            cs@ == p@,
            out@ == star_expanded(cs@.take(i as int)),
        decreases cs@.len() - i,
    {
        assert(cs@.take(i + 1).drop_last() =~= cs@.take(i as int));
        assert(cs@.take(i + 1).last() == cs@[i as int]);
        let c = cs[i];
        if c == '*' {
            out.push('.');
            out.push('*');
            assert(out@ =~= star_expanded(cs@.take(i as int)) + seq!['.', '*']);
        } else {
            out.push(c);
        }
        i += 1;
    }
    assert(cs@.take(i as int) =~= cs@);
    string_from_chars(&out)
}

/// Whether `regex::Regex::new` accepts the pattern `p`.
pub uninterp spec fn regex_valid(p: Seq<char>) -> bool;

/// Whether the regular expression compiled from `p` matches somewhere in
/// `text`.
pub uninterp spec fn regex_accepts(p: Seq<char>, text: Seq<char>) -> bool;

/// `regex::Regex::new(pattern)` and, where it compiles, `Regex::is_match`
/// on `text`. The contract names both results and says no more of them:
/// `None` exactly where the pattern does not compile.
#[verifier::external_body]
fn regex_match(pattern: &str, text: &str) -> (r: Option<bool>)
    ensures
        r is Some <==> regex_valid(pattern@),
        r matches Some(b) ==> b == regex_accepts(pattern@, text@),
{
    match regex::Regex::new(pattern) {
        Ok(re) => Some(re.is_match(text)),
        Err(_) => None,
    }
}

/// Whether the path `k` is found by the wildcard pattern `p`: the pattern
/// with `*` read as any text compiles and matches somewhere in the path.
pub open spec fn wildcard_hit(p: Seq<char>, k: Seq<char>) -> bool {
    regex_valid(star_expanded(p)) && regex_accepts(star_expanded(p), k)
}

} // verus!
