//! The storage layers: transient, short-term (the last rounds) and
//! long-term (rules and habits filed by category). This module holds what
//! the layers decide; reading and writing their files is left to callers.
use std::path::PathBuf;
use vstd::prelude::*;
use vstd::string::StringExecFns;
use crate::paths::{joined, path_join};
use crate::text::{chars_of, contains_text, is_white_space, lowercase, lowercase_of, occurs_in, string_from_chars, white_space};

verus! {

/// Layer a content item belongs to.
#[derive(Debug, Clone, Copy, PartialEq, Eq, Structural)]
pub enum ContentType {
    Transient,
    ShortTerm,
    LongTerm,
}

/// Where a stored item's files lie.
#[derive(Debug, Clone)]
pub struct StoredItem {
    pub id: String,
    pub hash: String,
    pub summary_path: PathBuf,
    pub content_path: PathBuf,
    pub metadata_path: PathBuf,
}

/// The transient layer: files of one round, dropped with the session.
pub struct TransientLayer {
    dir: PathBuf,
}

impl TransientLayer {
    /// The directory of the layer.
    pub closed spec fn dir_spec(&self) -> PathBuf {
        self.dir
    }

    /// The layer kept in `dir`, which the caller has created.
    pub fn with_dir(dir: PathBuf) -> (l: Self)
        ensures
            l.dir_spec() == dir,
    {
        TransientLayer { dir }
    }

    /// The directory of the layer.
    pub fn dir(&self) -> (d: &PathBuf)
        ensures
            *d == self.dir_spec(),
    {
        &self.dir
    }
}

/// The short-term layer: the most recent rounds.
pub struct ShortTermLayer {
    dir: PathBuf,
    max_rounds: usize,
}

impl ShortTermLayer {
    /// The directory of the layer.
    pub closed spec fn dir_spec(&self) -> PathBuf {
        self.dir
    }

    /// The number of rounds kept.
    pub closed spec fn max_rounds_spec(&self) -> usize {
        self.max_rounds
    }

    /// The layer kept in `dir`, which the caller has created, keeping
    /// `max_rounds` rounds.
    pub fn with_dir(dir: PathBuf, max_rounds: usize) -> (l: Self)
        ensures
            l.dir_spec() == dir,
            l.max_rounds_spec() == max_rounds,
    {
        ShortTermLayer { dir, max_rounds }
    }

    /// The directory of the layer.
    pub fn dir(&self) -> (d: &PathBuf)
        ensures
            *d == self.dir_spec(),
    {
        &self.dir
    }

    /// The number of rounds kept.
    pub fn max_rounds(&self) -> (n: usize)
        ensures
            n == self.max_rounds_spec(),
    {
        self.max_rounds
    }

    /// Sets the number of rounds kept.
    pub fn set_max_rounds(&mut self, max_rounds: usize)
        ensures
            final(self).max_rounds_spec() == max_rounds,
            final(self).dir_spec() == old(self).dir_spec(),
    {
        self.max_rounds = max_rounds;
    }
}

/// Configuration of the long-term layer.
#[derive(Debug, Clone)]
pub struct LongTermConfig {
    /// Root of a knowledge directory whose subdirectories are categories.
    pub knowledge_root: Option<PathBuf>,
    /// Whether categories are taken from the knowledge directory.
    pub auto_sync_categories: bool,
    /// Categories configured by hand.
    pub custom_categories: Vec<String>,
}

/// The categories configured by default.
pub open spec fn default_categories() -> Seq<Seq<char>> {
    seq!["git_rules"@, "tool_configs"@, "task_patterns"@]
}

/// The characters of each string of `v`.
pub open spec fn texts_of(v: Seq<String>) -> Seq<Seq<char>> {
    v.map_values(|s: String| s@)
}

impl Default for LongTermConfig {
    fn default() -> (c: Self)
        ensures
            c.knowledge_root is None,
            !c.auto_sync_categories,
            texts_of(c.custom_categories@) == default_categories(),
    {
        let custom_categories = vec![
            String::from_str("git_rules"),
            String::from_str("tool_configs"),
            String::from_str("task_patterns"),
        ];
        assert(texts_of(custom_categories@) =~= default_categories());
        LongTermConfig { knowledge_root: None, auto_sync_categories: false, custom_categories }
    }
}

/// `s` without repeats, each item kept where it first occurs.
pub open spec fn dedup(s: Seq<Seq<char>>) -> Seq<Seq<char>>
    decreases s.len(),
{
    if s.len() == 0 {
        s
    } else {
        let d = dedup(s.drop_last());
        if d.contains(s.last()) { d } else { d.push(s.last()) }
    }
}

proof fn lemma_dedup_contains(s: Seq<Seq<char>>, x: Seq<char>)
    ensures
        dedup(s).contains(x) == s.contains(x),
    decreases s.len(),
{
    if s.len() > 0 {
        lemma_dedup_contains(s.drop_last(), x);
        let d = dedup(s.drop_last());
        if s.contains(x) && x != s.last() {
            let i = choose|i: int| 0 <= i < s.len() && s[i] == x;
            assert(s.drop_last()[i] == x);
        }
        if s.drop_last().contains(x) {
            let i = choose|i: int| 0 <= i < s.drop_last().len() && s.drop_last()[i] == x;
            assert(s[i] == x);
        }
        if !d.contains(s.last()) {
            assert(d.push(s.last())[d.len() as int] == s.last());
            if d.contains(x) {
                let i = choose|i: int| 0 <= i < d.len() && d[i] == x;
                assert(d.push(s.last())[i] == x);
            }
            if d.push(s.last()).contains(x) && x != s.last() {
                let i = choose|i: int| 0 <= i < d.len() + 1 && d.push(s.last())[i] == x;
                assert(d[i] == x);
            }
        }
        assert(s[s.len() - 1] == s.last());
    }
}

/// Whether `v` holds a string equal to `x`.
fn holds(v: &Vec<String>, x: &String) -> (r: bool)
    ensures
        r == texts_of(v@).contains(x@),
{
    let mut i: usize = 0;
    while i < v.len()
        invariant
            i <= v@.len(),
            forall|j: int| 0 <= j < i ==> v@[j]@ != x@,
        decreases v@.len() - i,
    {
        if v[i] == *x {
            assert(texts_of(v@)[i as int] == x@);
            return true;
        }
        i += 1;
    }
    proof {
        if texts_of(v@).contains(x@) {
            let j = choose|j: int| 0 <= j < texts_of(v@).len() && texts_of(v@)[j] == x@;
            assert(v@[j]@ == x@);
        }
    }
    false
}

/// The categories of a layer: those found in the knowledge directory (in
/// the order found), then the configured ones, each once.
pub fn merge_categories(found: &Vec<String>, custom: &Vec<String>) -> (c: Vec<String>)
    ensures
        texts_of(c@) == dedup(texts_of(found@) + texts_of(custom@)),
{
    let ghost all = texts_of(found@) + texts_of(custom@);
    let mut c: Vec<String> = Vec::new();
    let mut i: usize = 0;
    assert(all.take(0) =~= Seq::<Seq<char>>::empty());
    while i < found.len()
        invariant
            i <= found@.len(),
            all == texts_of(found@) + texts_of(custom@),
            texts_of(c@) == dedup(all.take(i as int)),
        decreases found@.len() - i,
    {
        let x = found[i].clone();
        assert(x@ == all[i as int]);
        assert(all.take(i + 1).drop_last() =~= all.take(i as int));
        assert(all.take(i + 1).last() == x@);
        if !holds(&c, &x) {
            let ghost before = texts_of(c@);
            c.push(x);
            assert(texts_of(c@) =~= before.push(x@));
        }
        i += 1;
    }
    let mut j: usize = 0;
    while j < custom.len()
        invariant
            j <= custom@.len(),
            i == found@.len(),
            all == texts_of(found@) + texts_of(custom@),
            texts_of(c@) == dedup(all.take(i + j)),
        decreases custom@.len() - j,
    {
        let x = custom[j].clone();
        assert(x@ == all[i + j]);
        assert(all.take(i + j + 1).drop_last() =~= all.take(i + j));
        assert(all.take(i + j + 1).last() == x@);
        if !holds(&c, &x) {
            let ghost before = texts_of(c@);
            c.push(x);
            assert(texts_of(c@) =~= before.push(x@));
        }
        j += 1;
    }
    assert(all.take(i + j) =~= all);
    c
}

/// The long-term layer: content filed by category.
pub struct LongTermLayer {
    dir: PathBuf,
    categories: Vec<String>,
    config: LongTermConfig,
}

/// Whether `c` is a separator of keywords: white space, a question mark or
/// a comma, ASCII or full width.
pub open spec fn is_separator(c: char) -> bool {
    is_separator_by(c, false)
}

/// Whether `c` separates keywords; with `full_stop`, the ideographic full
/// stop separates them too.
pub open spec fn is_separator_by(c: char, full_stop: bool) -> bool {
    is_white_space(c) || c == '?' || c == '？' || c == ',' || c == '，' || (full_stop && c == '。')
}

/// The pieces of `s` between separators, empty ones included, as
/// `str::split` cuts them.
pub open spec fn pieces(s: Seq<char>) -> Seq<Seq<char>> {
    pieces_by(s, false)
}

/// The pieces of `s` between separators (with `full_stop` as
/// `is_separator_by` says), empty ones included.
pub open spec fn pieces_by(s: Seq<char>, full_stop: bool) -> Seq<Seq<char>>
    decreases s.len(),
{
    if s.len() == 0 {
        seq![Seq::empty()]
    } else {
        let p = pieces_by(s.drop_last(), full_stop);
        if is_separator_by(s.last(), full_stop) {
            p.push(Seq::empty())
        } else {
            p.update(p.len() - 1, p.last().push(s.last()))
        }
    }
}

/// Stop words, which are never keywords.
pub open spec fn is_stop_word_spec(p: Seq<char>) -> bool {
    ||| p == seq!['的']
    ||| p == seq!['了']
    ||| p == seq!['是']
    ||| p == seq!['在']
    ||| p == seq!['和']
    ||| p == seq!['与']
    ||| p == seq!['或']
    ||| p == seq!['怎', '么']
    ||| p == seq!['如', '何']
    ||| p == seq!['哪', '些']
    ||| p == seq!['什', '么']
}

/// Whether `p` is a keyword: more than one byte long in UTF-8 and not a
/// stop word.
pub open spec fn is_keyword(p: Seq<char>) -> bool {
    &&& (p.len() > 1 || (p.len() == 1 && (p[0] as u32) >= 0x80))
    &&& !is_stop_word_spec(p)
}

/// The keywords of `ps`, in order.
pub open spec fn keywords_of(ps: Seq<Seq<char>>) -> Seq<Seq<char>>
    decreases ps.len(),
{
    if ps.len() == 0 {
        ps
    } else {
        let k = keywords_of(ps.drop_last());
        if is_keyword(ps.last()) { k.push(ps.last()) } else { k }
    }
}

pub(crate) fn is_stop_word(p: &Vec<char>) -> (r: bool)
    ensures
        r == is_stop_word_spec(p@),
{
    if p.len() == 1 {
        let c = p[0];
        assert(p@ =~= seq![c]);
        c == '的' || c == '了' || c == '是' || c == '在' || c == '和' || c == '与' || c == '或'
    } else if p.len() == 2 {
        let a = p[0];
        let b = p[1];
        assert(p@ =~= seq![a, b]);
        (a == '怎' && b == '么') || (a == '如' && b == '何') || (a == '哪' && b == '些') || (a == '什' && b == '么')
    } else {
        false
    }
}

fn same_chars(a: &Vec<char>, b: &Vec<char>) -> (r: bool)
    ensures
        r == (a@ == b@),
{
    if a.len() != b.len() {
        return false;
    }
    let mut i: usize = 0;
    while i < a.len()
        invariant
            i <= a@.len(),
            a@.len() == b@.len(),
            forall|j: int| 0 <= j < i ==> a@[j] == b@[j],
        decreases a@.len() - i,
    {
        if a[i] != b[i] {
            return false;
        }
        i += 1;
    }
    assert(a@ =~= b@);
    true
}

/// The keywords of `text`: its pieces between separators that are more
/// than one byte long and not stop words.
pub fn extract_keywords(text: &str) -> (k: Vec<String>)
    ensures
        texts_of(k@) == keywords_of(pieces(text@)),
{
    split_keywords(text, false)
}

/// The keywords of `text` between separators, the ideographic full stop
/// among them where `full_stop`.
pub(crate) fn split_keywords(text: &str, full_stop: bool) -> (k: Vec<String>)
    ensures
        texts_of(k@) == keywords_of(pieces_by(text@, full_stop)),
{
    let cs = chars_of(text);
    let mut done: Vec<Vec<char>> = Vec::new();
    let mut cur: Vec<char> = Vec::new();
    let mut i: usize = 0;
    assert(cs@.take(0) =~= Seq::<char>::empty());
    while i < cs.len()
        invariant
            i <= cs@.len(),
            cs@ == text@,
            pieces_by(cs@.take(i as int), full_stop) == done@.map_values(|v: Vec<char>| v@).push(cur@),
        decreases cs@.len() - i,
    {
        let c = cs[i];
        let ghost before = done@.map_values(|v: Vec<char>| v@);
        assert(cs@.take(i + 1).drop_last() =~= cs@.take(i as int));
        assert(cs@.take(i + 1).last() == c);
        if white_space(c) || c == '?' || c == '？' || c == ',' || c == '，' || (full_stop && c == '。') {
            let mut finished: Vec<char> = Vec::new();
            std::mem::swap(&mut finished, &mut cur);
            done.push(finished);
            assert(done@.map_values(|v: Vec<char>| v@) =~= before.push(finished@));
        } else {
            let ghost old_cur = cur@;
            cur.push(c);
            assert(before.push(old_cur).update(before.len() as int, old_cur.push(c)) =~= before.push(cur@));
        }
        i += 1;
    }
    assert(cs@.take(i as int) =~= cs@);
    let ghost before_last = done@.map_values(|v: Vec<char>| v@);
    let ghost last = cur@;
    done.push(cur);
    let ghost ps = done@.map_values(|v: Vec<char>| v@);
    assert(ps =~= before_last.push(last));
    assert(ps == pieces_by(text@, full_stop));
    let mut k: Vec<String> = Vec::new();
    let mut j: usize = 0;
    assert(ps.take(0) =~= Seq::<Seq<char>>::empty());
    while j < done.len()
        invariant
            j <= done@.len(),
            ps == done@.map_values(|v: Vec<char>| v@),
            texts_of(k@) == keywords_of(ps.take(j as int)),
        decreases done@.len() - j,
    {
        assert(ps.take(j + 1).drop_last() =~= ps.take(j as int));
        assert(ps.take(j + 1).last() == done@[j as int]@);
        let p = &done[j];
        let long = p.len() > 1 || (p.len() == 1 && (p[0] as u32) >= 0x80);
        if long && !is_stop_word(p) {
            let ghost before = texts_of(k@);
            let w = string_from_chars(p);
            k.push(w);
            assert(texts_of(k@) =~= before.push(p@));
        }
        j += 1;
    }
    assert(ps.take(j as int) =~= ps);
    k
}

/// Whether some item of `cats` equals `t` once both are lowercased.
pub open spec fn matches_any(cats: Seq<Seq<char>>, t: Seq<char>) -> bool {
    exists|j: int| 0 <= j < cats.len() && lowercase_of(cats[j]) == lowercase_of(t)
}

/// The first category from `j` on that equals `t` once both are
/// lowercased, if any.
pub open spec fn first_matching(cats: Seq<Seq<char>>, t: Seq<char>, j: int) -> Option<Seq<char>>
    decreases cats.len() - j,
{
    if j < 0 || j >= cats.len() {
        None
    } else if lowercase_of(cats[j]) == lowercase_of(t) {
        Some(cats[j])
    } else {
        first_matching(cats, t, j + 1)
    }
}

/// The category named, case aside, by the first tag from `i` on that names
/// one, if any.
pub open spec fn tag_pick(cats: Seq<Seq<char>>, tags: Seq<Seq<char>>, i: int) -> Option<Seq<char>>
    decreases tags.len() - i,
{
    if i < 0 || i >= tags.len() {
        None
    } else {
        match first_matching(cats, tags[i], 0) {
            Some(c) => Some(c),
            None => tag_pick(cats, tags, i + 1),
        }
    }
}

/// The first category from `j` on that matches a keyword, if any.
pub open spec fn category_pick(cats: Seq<Seq<char>>, kws: Seq<Seq<char>>, j: int) -> Option<Seq<char>>
    decreases cats.len() - j,
{
    if j < 0 || j >= cats.len() {
        None
    } else if matches_any(kws, cats[j]) {
        Some(cats[j])
    } else {
        category_pick(cats, kws, j + 1)
    }
}

/// The category chosen for content `text` with tags `tags`: the category
/// that the first tag naming one names (case aside), else the first
/// category named by a keyword of the text, else `task_patterns`.
pub open spec fn selected_category(cats: Seq<Seq<char>>, text: Seq<char>, tags: Seq<Seq<char>>) -> Seq<char> {
    match tag_pick(cats, tags, 0) {
        Some(t) => t,
        None => match category_pick(cats, keywords_of(pieces(text)), 0) {
            Some(c) => c,
            None => "task_patterns"@,
        },
    }
}

/// The first string of `v` that equals `t` once both are lowercased.
fn matching_category(v: &Vec<String>, t: &String) -> (r: Option<String>)
    ensures
        match r {
            Some(c) => first_matching(texts_of(v@), t@, 0) == Some(c@),
            None => first_matching(texts_of(v@), t@, 0) is None,
        },
{
    let ghost cv = texts_of(v@);
    let lt = lowercase(t.as_str());
    let mut j: usize = 0;
    while j < v.len()
        invariant
            j <= v@.len(),
            cv == texts_of(v@),
            lt@ == lowercase_of(t@),
            first_matching(cv, t@, 0) == first_matching(cv, t@, j as int),
        decreases v@.len() - j,
    {
        assert(cv[j as int] == v@[j as int]@);
        let lv = lowercase(v[j].as_str());
        if crate::text::same_text(lv.as_str(), lt.as_str()) {
            let c = v[j].clone();
            assert(c@ == cv[j as int]);
            return Some(c);
        }
        j += 1;
    }
    None
}

/// Whether some string of `v` equals `t` once both are lowercased.
fn any_matches(v: &Vec<String>, t: &String) -> (r: bool)
    ensures
        r == matches_any(texts_of(v@), t@),
{
    let lt = lowercase(t.as_str());
    let mut j: usize = 0;
    while j < v.len()
        invariant
            j <= v@.len(),
            lt@ == lowercase_of(t@),
            forall|k: int| 0 <= k < j ==> lowercase_of(v@[k]@) != lowercase_of(t@),
        decreases v@.len() - j,
    {
        let lv = lowercase(v[j].as_str());
        if lv == lt {
            assert(texts_of(v@)[j as int] == v@[j as int]@);
            return true;
        }
        j += 1;
    }
    proof {
        if matches_any(texts_of(v@), t@) {
            let k = choose|k: int| 0 <= k < texts_of(v@).len() && lowercase_of(texts_of(v@)[k]) == lowercase_of(t@);
            assert(texts_of(v@)[k] == v@[k]@);
        }
    }
    false
}

impl LongTermLayer {
    /// The directory of the layer.
    pub closed spec fn dir_spec(&self) -> PathBuf {
        self.dir
    }

    /// The categories.
    pub closed spec fn categories_spec(&self) -> Seq<Seq<char>> {
        texts_of(self.categories@)
    }

    /// The layer kept in `dir` under `config`, whose categories are those
    /// in `found` (the subdirectories of the knowledge directory where
    /// categories are synchronised from it, else none) followed by the
    /// configured ones, each once. The caller creates the directories.
    pub fn with_found_categories(dir: PathBuf, config: LongTermConfig, found: &Vec<String>) -> (l: Self)
        ensures
            l.dir_spec() == dir,
            l.categories_spec() == dedup(texts_of(found@) + texts_of(config.custom_categories@)),
    {
        let categories = merge_categories(found, &config.custom_categories);
        LongTermLayer { dir, categories, config }
    }

    /// The directory of the layer.
    pub fn dir(&self) -> (d: &PathBuf)
        ensures
            *d == self.dir_spec(),
    {
        &self.dir
    }

    /// The directory of `category`.
    pub fn category_dir(&self, category: &str) -> (p: PathBuf)
        ensures
            p == joined(self.dir_spec(), category@),
    {
        path_join(&self.dir, category)
    }

    /// The categories.
    pub fn categories(&self) -> (c: &[String])
        ensures
            texts_of(c@) == self.categories_spec(),
    {
        self.categories.as_slice()
    }

    /// The category for content `content` with tags `tags`.
    pub fn select_category(&self, content: &str, tags: &[String]) -> (c: String)
        ensures
            c@ == selected_category(self.categories_spec(), content@, texts_of(tags@)),
    {
        let cats = &self.categories;
        let ghost cv = texts_of(cats@);
        let ghost tv = texts_of(tags@);
        let mut i: usize = 0;
        while i < tags.len()
            invariant
                i <= tags@.len(),
                cv == texts_of(cats@),
                cv == self.categories_spec(),
                tv == texts_of(tags@),
                tag_pick(cv, tv, 0) == tag_pick(cv, tv, i as int),
            decreases tags@.len() - i,
        {
            assert(tv[i as int] == tags@[i as int]@);
            match matching_category(cats, &tags[i]) {
                Some(c) => {
                    assert(tag_pick(cv, tv, i as int) == Some(c@));
                    return c;
                },
                None => {},
            }
            i += 1;
        }
        let keywords = extract_keywords(content);
        let ghost kv = texts_of(keywords@);
        let mut j: usize = 0;
        while j < cats.len()
            invariant
                j <= cats@.len(),
                cv == texts_of(cats@),
                cv == self.categories_spec(),
                tv == texts_of(tags@),
                kv == texts_of(keywords@),
                kv == keywords_of(pieces(content@)),
                tag_pick(cv, tv, 0) is None,
                category_pick(cv, kv, 0) == category_pick(cv, kv, j as int),
            decreases cats@.len() - j,
        {
            assert(cv[j as int] == cats@[j as int]@);
            if any_matches(&keywords, &cats[j]) {
                assert(category_pick(cv, kv, j as int) == Some(cv[j as int]));
                let c = cats[j].clone();
                assert(c@ == cv[j as int]);
                return c;
            }
            j += 1;
        }
        proof {
            reveal_strlit("task_patterns");
        }
        String::from_str("task_patterns")
    }
}


/// When an item was created: seconds and nanoseconds since the epoch.
pub type CreatedAt = (i64, u32);

/// Whether `a` comes before `b` in the order wanted: newer first where
/// `newest_first`, older first otherwise; seconds decide, then nanoseconds.
pub open spec fn precedes(a: CreatedAt, b: CreatedAt, newest_first: bool) -> bool {
    if newest_first {
        a.0 > b.0 || (a.0 == b.0 && a.1 > b.1)
    } else {
        a.0 < b.0 || (a.0 == b.0 && a.1 < b.1)
    }
}

/// The index of the first item of `s` that no later item precedes, looking
/// from `i` on with `best` the best so far.
pub open spec fn first_best_from(s: Seq<(Seq<char>, CreatedAt)>, newest_first: bool, i: int, best: int) -> int
    decreases s.len() - i,
{
    if i < 0 || i >= s.len() {
        best
    } else if precedes(s[i].1, s[best].1, newest_first) {
        first_best_from(s, newest_first, i + 1, i)
    } else {
        first_best_from(s, newest_first, i + 1, best)
    }
}

/// `s` ordered by creation time, newest or oldest first, keeping the order
/// of `s` among items created at the same time.
pub open spec fn by_time(s: Seq<(Seq<char>, CreatedAt)>, newest_first: bool) -> Seq<(Seq<char>, CreatedAt)>
    decreases s.len(),
{
    if s.len() == 0 {
        Seq::empty()
    } else {
        let b = first_best_from(s, newest_first, 1, 0);
        if 0 <= b < s.len() {
            seq![s[b]] + by_time(s.remove(b), newest_first)
        } else {
            Seq::empty()
        }
    }
}

proof fn lemma_first_best_in_range(s: Seq<(Seq<char>, CreatedAt)>, newest_first: bool, i: int, best: int)
    requires
        0 <= best < s.len(),
        i >= 0,
    ensures
        0 <= first_best_from(s, newest_first, i, best) < s.len(),
    decreases s.len() - i,
{
    if i < s.len() {
        if precedes(s[i].1, s[best].1, newest_first) {
            lemma_first_best_in_range(s, newest_first, i + 1, i);
        } else {
            lemma_first_best_in_range(s, newest_first, i + 1, best);
        }
    }
}

/// Ordering by time keeps every item.
pub proof fn lemma_by_time_len(s: Seq<(Seq<char>, CreatedAt)>, newest_first: bool)
    ensures
        by_time(s, newest_first).len() == s.len(),
    decreases s.len(),
{
    if s.len() > 0 {
        lemma_first_best_in_range(s, newest_first, 1, 0);
        let b = first_best_from(s, newest_first, 1, 0);
        lemma_by_time_len(s.remove(b), newest_first);
    }
}

/// The view of timed items.
pub open spec fn timed_view(v: Seq<(String, CreatedAt)>) -> Seq<(Seq<char>, CreatedAt)> {
    v.map_values(|e: (String, CreatedAt)| (e.0@, e.1))
}

fn before(a: CreatedAt, b: CreatedAt, newest_first: bool) -> (r: bool)
    ensures
        r == precedes(a, b, newest_first),
{
    if newest_first {
        a.0 > b.0 || (a.0 == b.0 && a.1 > b.1)
    } else {
        a.0 < b.0 || (a.0 == b.0 && a.1 < b.1)
    }
}

/// The items ordered by creation time, newest or oldest first, keeping the
/// given order among items created at the same time.
pub fn order_by_time(items: Vec<(String, CreatedAt)>, newest_first: bool) -> (r: Vec<(String, CreatedAt)>)
    ensures
        timed_view(r@) == by_time(timed_view(items@), newest_first),
{
    let mut rest = items;
    let mut out: Vec<(String, CreatedAt)> = Vec::new();
    let ghost whole = by_time(timed_view(rest@), newest_first);
    proof {
        assert(timed_view(out@) + by_time(timed_view(rest@), newest_first) =~= whole);
    }
    while rest.len() > 0
        invariant
            timed_view(out@) + by_time(timed_view(rest@), newest_first) == whole,
        decreases rest@.len(),
    {
        let ghost rv = timed_view(rest@);
        let mut best: usize = 0;
        let mut i: usize = 1;
        while i < rest.len()
            invariant
                1 <= i <= rest@.len(),
                best < rest@.len(),
                rv == timed_view(rest@),
                first_best_from(rv, newest_first, 1, 0) == first_best_from(rv, newest_first, i as int, best as int),
            decreases rest@.len() - i,
        {
            if before(rest[i].1, rest[best].1, newest_first) {
                best = i;
            }
            i += 1;
        }
        let e = rest.remove(best);
        proof {
            assert(timed_view(rest@) =~= rv.remove(best as int));
        }
        let ghost ev = (e.0@, e.1);
        let ghost before_out = timed_view(out@);
        out.push(e);
        proof {
            assert(timed_view(out@) =~= before_out.push(ev));
            assert(by_time(rv, newest_first) == seq![ev] + by_time(rv.remove(best as int), newest_first));
            assert(before_out.push(ev) + by_time(timed_view(rest@), newest_first) =~= before_out + (seq![ev]
                + by_time(timed_view(rest@), newest_first)));
        }
    }
    proof {
        assert(timed_view(rest@) =~= Seq::<(Seq<char>, CreatedAt)>::empty());
        assert(timed_view(out@) + Seq::<(Seq<char>, CreatedAt)>::empty() =~= timed_view(out@));
    }
    out
}

/// The items a short-term layer of `max_rounds` rounds drops when trimmed:
/// all but the `max_rounds` newest, newest first, keeping the given order
/// among items created at the same time.
pub fn trim_victims(items: Vec<(String, CreatedAt)>, max_rounds: usize) -> (r: Vec<String>)
    ensures
        max_rounds >= items@.len() ==> r@.len() == 0,
        max_rounds < items@.len() ==> r@.len() == items@.len() - max_rounds,
        max_rounds < items@.len() ==> r@.map_values(|id: String| id@) == by_time(timed_view(items@), true).skip(
            max_rounds as int,
        ).map_values(|e: (Seq<char>, CreatedAt)| e.0),
{
    let ghost n = items@.len();
    let sorted = order_by_time(items, true);
    proof {
        lemma_by_time_len(timed_view(items@), true);
    }
    let ghost sv = timed_view(sorted@);
    let mut r: Vec<String> = Vec::new();
    if max_rounds >= sorted.len() {
        return r;
    }
    let mut i: usize = max_rounds;
    let ghost want = sv.skip(max_rounds as int).map_values(|e: (Seq<char>, CreatedAt)| e.0);
    while i < sorted.len()
        invariant
            max_rounds <= i <= sorted@.len(),
            sv == timed_view(sorted@),
            want == sv.skip(max_rounds as int).map_values(|e: (Seq<char>, CreatedAt)| e.0),
            r@.len() == i - max_rounds,
            forall|k: int| 0 <= k < r@.len() ==> #[trigger] r@[k]@ == sv[max_rounds + k].0,
        decreases sorted@.len() - i,
    {
        r.push(String::from_str(sorted[i].0.as_str()));
        i += 1;
    }
    proof {
        assert(r@.map_values(|id: String| id@) =~= want);
    }
    r
}

/// Whether `s` ends with `suffix`.
pub open spec fn ends_with(s: Seq<char>, suffix: Seq<char>) -> bool {
    suffix.len() <= s.len() && s.skip(s.len() - suffix.len()) == suffix
}

fn strip_suffix_text(s: &str, suffix: &str) -> (r: Option<String>)
    ensures
        r is Some <==> ends_with(s@, suffix@),
        r matches Some(t) ==> t@ == s@.take(s@.len() - suffix@.len()),
{
    let cs = chars_of(s);
    let xs = chars_of(suffix);
    if xs.len() > cs.len() {
        return None;
    }
    let start = cs.len() - xs.len();
    let mut i: usize = 0;
    let mut at: usize = start;
    while i < xs.len()
        invariant
            i <= xs@.len(),
            xs@.len() <= cs@.len(),
            start == cs@.len() - xs@.len(),
            at == start + i,
            cs@.len() <= usize::MAX,
            cs@ == s@,
            xs@ == suffix@,
            forall|j: int| 0 <= j < i ==> cs@[start + j] == xs@[j],
        decreases xs@.len() - i,
    {
        if cs[at] != xs[i] {
            assert(s@.skip(start as int)[i as int] != suffix@[i as int]);
            return None;
        }
        i += 1;
        at += 1;
    }
    assert(s@.skip(start as int) =~= suffix@);
    let mut out: Vec<char> = Vec::new();
    let mut k: usize = 0;
    while k < start
        invariant
            k <= start <= cs@.len(),
            out@ == cs@.take(k as int),
        decreases start - k,
    {
        out.push(cs[k]);
        assert(cs@.take(k + 1) =~= cs@.take(k as int).push(cs@[k as int]));
        k += 1;
    }
    Some(string_from_chars(&out))
}

/// `stem` followed by `suffix`.
fn suffixed(stem: &str, suffix: &str) -> (s: String)
    ensures
        s@ == stem@ + suffix@,
{
    let mut s = String::from_str(stem);
    s.append(suffix);
    s
}

/// The name of the content file of `id` in the transient and short-term
/// layers: `id` followed by `_content.bin`.
pub fn content_file_name(id: &str) -> (s: String)
    ensures
        s@ == id@ + "_content.bin"@,
{
    suffixed(id, "_content.bin")
}

/// The name of the summary file of `hash`: `hash` followed by
/// `_summary.txt`.
pub fn summary_file_name(hash: &str) -> (s: String)
    ensures
        s@ == hash@ + "_summary.txt"@,
{
    suffixed(hash, "_summary.txt")
}

/// The name of the metadata file of `hash`: `hash` followed by `.json`.
pub fn metadata_file_name(hash: &str) -> (s: String)
    ensures
        s@ == hash@ + ".json"@,
{
    suffixed(hash, ".json")
}

/// The name of the content file of `hash` in the long-term layer: `hash`
/// followed by `.bin`.
pub fn knowledge_file_name(hash: &str) -> (s: String)
    ensures
        s@ == hash@ + ".bin"@,
{
    suffixed(hash, ".bin")
}

/// Whether an item with content hash `hash` and id `item_id` is the one
/// asked for by `id`: either names it.
pub fn names_item(hash: &str, item_id: &str, id: &str) -> (r: bool)
    ensures
        r == (hash@ == id@ || item_id@ == id@),
{
    crate::text::same_text(hash, id) || crate::text::same_text(item_id, id)
}

/// The id of a transient content file named `name`: the name without its
/// `_content.bin` ending, where it has one.
pub fn transient_id(name: &str) -> (r: Option<String>)
    ensures
        r is Some <==> ends_with(name@, "_content.bin"@),
        r matches Some(t) ==> t@ == name@.take(name@.len() - 12),
{
    proof {
        reveal_strlit("_content.bin");
    }
    strip_suffix_text(name, "_content.bin")
}

/// The stem of a metadata file named `name`: the name without its `.json`
/// extension, where it has one after a nonempty stem.
pub fn json_stem(name: &str) -> (r: Option<String>)
    ensures
        r is Some <==> ends_with(name@, ".json"@) && name@.len() > 5,
        r matches Some(t) ==> t@ == name@.take(name@.len() - 5),
{
    proof {
        reveal_strlit(".json");
    }
    if name.unicode_len() <= 5 {
        return None;
    }
    strip_suffix_text(name, ".json")
}

/// Whether the file name `name` contains `keyword`, case aside.
pub fn keyword_matches(name: &str, keyword: &str) -> (r: bool)
    ensures
        r == occurs_in(lowercase_of(name@), lowercase_of(keyword@)),
{
    let ln = lowercase(name);
    let lk = lowercase(keyword);
    contains_text(ln.as_str(), lk.as_str())
}

/// The category an item with `tags` is filed under in the long-term
/// layer: its first tag, else `task_patterns`.
pub fn storage_category(tags: &[String]) -> (c: String)
    ensures
        tags@.len() > 0 ==> c@ == tags@[0]@,
        tags@.len() == 0 ==> c@ == "task_patterns"@,
{
    if tags.len() > 0 {
        String::from_str(tags[0].as_str())
    } else {
        String::from_str("task_patterns")
    }
}

} // verus!
