use crate::bounds::{contains_date, in_bounds, unbounded, Bounds};
use crate::date::{date_le, lemma_date_le_total, lemma_date_le_trans, Date};
use crate::meta::ArticleMeta;
use crate::text::{
    contains_str, is_substring, lemma_seq_le_total, lemma_seq_le_trans, seq_le, str_eq, str_le,
};
use std::sync::Arc;
use crate::index::unique_paths;
use vstd::prelude::*;
use vstd::seq_lib::{to_multiset_build, to_multiset_contains};

verus! {

/// A document of the index: its path and its metadata.
pub type Entry = (String, Arc<ArticleMeta>);

/// Which of the six total orders a result list is sorted by.
#[derive(Clone, Copy, Debug, PartialEq, Eq, Structural)]
pub enum SortType {
    CreateAsc,
    CreateDesc,
    UpdateAsc,
    UpdateDesc,
    NameAsc,
    NameDesc,
}

/// Why a query field could not be read.
#[derive(Clone, Copy, Debug, PartialEq, Eq, Structural)]
pub enum FieldError {
    /// The field is empty.
    Missing,
    /// The field holds no value of the asked kind.
    Invalid,
}

/// How `a` compares with `b` under order `t`.
pub open spec fn order_of(t: SortType, a: ArticleMeta, b: ArticleMeta) -> std::cmp::Ordering {
    let (first, second) = if t.descending() {
        (key_le(t.key(), b, a), key_le(t.key(), a, b))
    } else {
        (key_le(t.key(), a, b), key_le(t.key(), b, a))
    };
    if first && second {
        std::cmp::Ordering::Equal
    } else if first {
        std::cmp::Ordering::Less
    } else {
        std::cmp::Ordering::Greater
    }
}

/// The field a sort order looks at.
pub enum SortKey {
    Created,
    Updated,
    Title,
}

/// The name by which a sort order is written in a query.
pub open spec fn sort_type_name(t: SortType) -> Seq<char> {
    match t {
        SortType::CreateAsc => "CreateAsc"@,
        SortType::CreateDesc => "CreateDesc"@,
        SortType::UpdateAsc => "UpdateAsc"@,
        SortType::UpdateDesc => "UpdateDesc"@,
        SortType::NameAsc => "NameAsc"@,
        SortType::NameDesc => "NameDesc"@,
    }
}

/// `a` comes no later than `b` when ordered by `key` ascending.
pub open spec fn key_le(key: SortKey, a: ArticleMeta, b: ArticleMeta) -> bool {
    match key {
        SortKey::Created => date_le(a.created, b.created),
        SortKey::Updated => date_le(a.updated, b.updated),
        SortKey::Title => seq_le(a.title@, b.title@),
    }
}

/// Entry `a` comes no later than entry `b` when ordered by `key` ascending.
pub open spec fn entry_le(key: SortKey, a: Entry, b: Entry) -> bool {
    key_le(key, *a.1, *b.1)
}

impl SortType {
    pub open spec fn key(self) -> SortKey {
        match self {
            SortType::CreateAsc | SortType::CreateDesc => SortKey::Created,
            SortType::UpdateAsc | SortType::UpdateDesc => SortKey::Updated,
            SortType::NameAsc | SortType::NameDesc => SortKey::Title,
        }
    }

    pub open spec fn descending(self) -> bool {
        self is CreateDesc || self is UpdateDesc || self is NameDesc
    }

    /// Whether the order is one of the three descending ones.
    pub fn is_descending(&self) -> (r: bool)
        ensures
            r == self.descending(),
    {
        match self {
            SortType::CreateDesc | SortType::UpdateDesc | SortType::NameDesc => true,
            _ => false,
        }
    }

    /// Whether `a` comes no later than `b` under the ascending order on this
    /// order's field.
    pub fn key_le(&self, a: &ArticleMeta, b: &ArticleMeta) -> (r: bool)
        ensures
            r == key_le(self.key(), *a, *b),
    {
        match self {
            SortType::CreateAsc | SortType::CreateDesc => a.created.le(&b.created),
            SortType::UpdateAsc | SortType::UpdateDesc => a.updated.le(&b.updated),
            SortType::NameAsc | SortType::NameDesc => str_le(a.title.as_str(), b.title.as_str()),
        }
    }

    /// How `a` compares with `b` in this order: `Less` when `a` comes first.
    /// A descending order compares exactly the other way round.
    pub fn sort_fn(&self, a: &ArticleMeta, b: &ArticleMeta) -> (r: std::cmp::Ordering)
        ensures
            r == order_of(*self, *a, *b),
    {
        let ab = self.key_le(a, b);
        let ba = self.key_le(b, a);
        let (first, second) = if self.is_descending() {
            (ba, ab)
        } else {
            (ab, ba)
        };
        if first && second {
            std::cmp::Ordering::Equal
        } else if first {
            std::cmp::Ordering::Less
        } else {
            std::cmp::Ordering::Greater
        }
    }

    /// The sort order named by a query field: `Missing` when the field is
    /// empty, `Invalid` when it names no order.
    pub fn from_value(s: &str) -> (r: Result<SortType, FieldError>)
        ensures
            s@.len() == 0 ==> r == Err::<SortType, FieldError>(FieldError::Missing),
            s@.len() > 0 ==> match r {
                Ok(t) => sort_type_name(t) == s@,
                Err(e) => e is Invalid && forall|t: SortType| sort_type_name(t) != s@,
            },
    {
        if s.unicode_len() == 0 {
            return Err(FieldError::Missing);
        }
        match SortType::from_name(s) {
            Some(t) => Ok(t),
            None => Err(FieldError::Invalid),
        }
    }

    /// The sort order of the given name, if there is one; names match exactly.
    pub fn from_name(s: &str) -> (r: Option<SortType>)
        ensures
            r matches Some(t) ==> sort_type_name(t) == s@,
            r is None ==> forall|t: SortType| sort_type_name(t) != s@,
    {
        proof {
            reveal_strlit("CreateAsc");
            reveal_strlit("CreateDesc");
            reveal_strlit("UpdateAsc");
            reveal_strlit("UpdateDesc");
            reveal_strlit("NameAsc");
            reveal_strlit("NameDesc");
        }
        if str_eq(s, "CreateAsc") {
            Some(SortType::CreateAsc)
        } else if str_eq(s, "CreateDesc") {
            Some(SortType::CreateDesc)
        } else if str_eq(s, "UpdateAsc") {
            Some(SortType::UpdateAsc)
        } else if str_eq(s, "UpdateDesc") {
            Some(SortType::UpdateDesc)
        } else if str_eq(s, "NameAsc") {
            Some(SortType::NameAsc)
        } else if str_eq(s, "NameDesc") {
            Some(SortType::NameDesc)
        } else {
            None
        }
    }
}

impl Default for SortType {
    fn default() -> (r: SortType)
        ensures
            r == SortType::CreateDesc,
    {
        SortType::CreateDesc
    }
}

/// What a search asks for: where to look, which documents qualify, their
/// order, and how many to return.
pub struct Search {
    pub search_path: String,
    pub exclude_paths: Vec<String>,
    pub tags: Vec<String>,
    pub created: Bounds<Date>,
    pub updated: Bounds<Date>,
    pub title_filter: Option<String>,
    pub sort_type: SortType,
    pub limit: Option<usize>,
}

impl Default for Search {
    fn default() -> (r: Search)
        ensures
            r.search_path@.len() == 0,
            r.exclude_paths@.len() == 0,
            r.tags@.len() == 0,
            r.created.0 is Unbounded && r.created.1 is Unbounded,
            r.updated.0 is Unbounded && r.updated.1 is Unbounded,
            r.title_filter is None,
            r.sort_type == SortType::CreateDesc,
            r.limit is None,
    {
        Search {
            search_path: String::new(),
            exclude_paths: Vec::new(),
            tags: Vec::new(),
            created: unbounded(),
            updated: unbounded(),
            title_filter: None,
            sort_type: SortType::default(),
            limit: None,
        }
    }
}

/// The tag list of `m` holds `t`.
pub open spec fn has_tag(m: ArticleMeta, t: Seq<char>) -> bool {
    exists|j: int| 0 <= j < m.tags@.len() && (#[trigger] m.tags@[j])@ == t
}

/// Every tag the search asks for is among the document's tags.
pub open spec fn has_all_tags(s: Search, m: ArticleMeta) -> bool {
    forall|i: int| 0 <= i < s.tags@.len() ==> has_tag(m, (#[trigger] s.tags@[i])@)
}

pub open spec fn title_matches(s: Search, m: ArticleMeta) -> bool {
    match s.title_filter {
        Some(f) => is_substring(f@, m.title@),
        None => true,
    }
}

/// The document qualifies for the search: both dates in range, not hidden,
/// every asked-for tag present, and the title filter found in the title.
pub open spec fn meta_matches(s: Search, m: ArticleMeta) -> bool {
    &&& in_bounds(s.created, m.created)
    &&& in_bounds(s.updated, m.updated)
    &&& !m.hidden
    &&& has_all_tags(s, m)
    &&& title_matches(s, m)
}

/// The search names `p` among the paths to leave out.
pub open spec fn is_excluded(s: Search, p: Seq<char>) -> bool {
    exists|k: int| 0 <= k < s.exclude_paths@.len() && (#[trigger] s.exclude_paths@[k])@ == p
}

pub open spec fn entry_kept(s: Search, e: Entry) -> bool {
    meta_matches(s, *e.1) && !is_excluded(s, e.0@)
}

/// The entries that qualify for the search and are not left out, in their order.
pub open spec fn kept(s: Search, es: Seq<Entry>) -> Seq<Entry>
    decreases es.len(),
{
    if es.len() == 0 {
        es
    } else {
        let r = kept(s, es.drop_last());
        if entry_kept(s, es.last()) {
            r.push(es.last())
        } else {
            r
        }
    }
}

/// `x` placed into `s` after every element that does not come later than it.
pub open spec fn insert_sorted(key: SortKey, s: Seq<Entry>, x: Entry) -> Seq<Entry>
    decreases s.len(),
{
    if s.len() == 0 {
        seq![x]
    } else if entry_le(key, s.last(), x) {
        s.push(x)
    } else {
        insert_sorted(key, s.drop_last(), x).push(s.last())
    }
}

/// The stable ascending sort of `s` by `key`.
pub open spec fn sorted_by(key: SortKey, s: Seq<Entry>) -> Seq<Entry>
    decreases s.len(),
{
    if s.len() == 0 {
        s
    } else {
        insert_sorted(key, sorted_by(key, s.drop_last()), s.last())
    }
}

/// `s` back to front.
pub open spec fn reversed<T>(s: Seq<T>) -> Seq<T>
    decreases s.len(),
{
    if s.len() == 0 {
        s
    } else {
        seq![s.last()] + reversed(s.drop_last())
    }
}

/// `s` in the given order: the ascending sort on its field, or exactly that
/// sort back to front.
pub open spec fn ordered(t: SortType, s: Seq<Entry>) -> Seq<Entry> {
    if t.descending() {
        reversed(sorted_by(t.key(), s))
    } else {
        sorted_by(t.key(), s)
    }
}

/// At most `limit` of the first elements of `s`.
pub open spec fn limited(limit: Option<usize>, s: Seq<Entry>) -> Seq<Entry> {
    match limit {
        Some(n) => if n < s.len() {
            s.take(n as int)
        } else {
            s
        },
        None => s,
    }
}

/// What a search returns from the given index: the kept entries in the asked
/// order, cut to the limit.
pub open spec fn search_result(s: Search, es: Seq<Entry>) -> Seq<Entry> {
    limited(s.limit, ordered(s.sort_type, kept(s, es)))
}

/// Whether `m` has the tag `t`.
pub fn has_tag_exec(m: &ArticleMeta, t: &String) -> (r: bool)
    ensures
        r == has_tag(*m, t@),
{
    let mut j: usize = 0;
    while j < m.tags.len()
        invariant
            j <= m.tags@.len(),
            forall|k: int| 0 <= k < j ==> (#[trigger] m.tags@[k])@ != t@,
        decreases m.tags@.len() - j,
    {
        if str_eq(m.tags[j].as_str(), t.as_str()) {
            return true;
        }
        j = j + 1;
    }
    false
}

impl Search {
    /// Leaves the document at `p` out of the results, as a document that
    /// embeds a search does with itself.
    pub fn exclude(&mut self, p: String)
        ensures
            final(self).exclude_paths@ == old(self).exclude_paths@.push(p),
            final(self).search_path == old(self).search_path,
            final(self).tags == old(self).tags,
            final(self).created == old(self).created,
            final(self).updated == old(self).updated,
            final(self).title_filter == old(self).title_filter,
            final(self).sort_type == old(self).sort_type,
            final(self).limit == old(self).limit,
    {
        self.exclude_paths.push(p);
    }

    /// Whether the document with metadata `m` qualifies for this search.
    pub fn matches(&self, m: &ArticleMeta) -> (r: bool)
        ensures
            r == meta_matches(*self, *m),
    {
        if !contains_date(&self.created, &m.created) || !contains_date(&self.updated, &m.updated)
            || m.hidden {
            return false;
        }
        let mut i: usize = 0;
        while i < self.tags.len()
            invariant
                i <= self.tags@.len(),
                forall|k: int| 0 <= k < i ==> has_tag(*m, (#[trigger] self.tags@[k])@),
            decreases self.tags@.len() - i,
        {
            if !has_tag_exec(m, &self.tags[i]) {
                return false;
            }
            i = i + 1;
        }
        match &self.title_filter {
            Some(f) => contains_str(m.title.as_str(), f.as_str()),
            None => true,
        }
    }

    /// Whether this search names `p` among the paths to leave out.
    pub fn excludes(&self, p: &String) -> (r: bool)
        ensures
            r == is_excluded(*self, p@),
    {
        let mut k: usize = 0;
        while k < self.exclude_paths.len()
            invariant
                k <= self.exclude_paths@.len(),
                forall|j: int| 0 <= j < k ==> (#[trigger] self.exclude_paths@[j])@ != p@,
            decreases self.exclude_paths@.len() - k,
        {
            if str_eq(self.exclude_paths[k].as_str(), p.as_str()) {
                return true;
            }
            k = k + 1;
        }
        false
    }
}

proof fn lemma_insert_at(key: SortKey, r: Seq<Entry>, x: Entry, j: int)
    requires
        0 <= j <= r.len(),
        forall|k: int| j <= k < r.len() ==> !entry_le(key, #[trigger] r[k], x),
        j == 0 || entry_le(key, r[j - 1], x),
    ensures
        insert_sorted(key, r, x) == r.insert(j, x),
    decreases r.len(),
{
    if r.len() == 0 {
        assert(r.insert(j, x) =~= seq![x]);
    } else if entry_le(key, r.last(), x) {
        assert(r.insert(j, x) =~= r.push(x));
    } else {
        let q = r.drop_last();
        assert forall|k: int| j <= k < q.len() implies !entry_le(key, #[trigger] q[k], x) by {
            assert(q[k] == r[k]);
        }
        lemma_insert_at(key, q, x, j);
        assert(r.insert(j, x) =~= q.insert(j, x).push(r.last()));
    }
}

/// Places `x` into the sorted list `r`, after every element that does not
/// come later than it.
fn insert_in_order(t: &SortType, r: &mut Vec<Entry>, x: Entry)
    ensures
        final(r)@ == insert_sorted(t.key(), old(r)@, x),
{
    let mut j: usize = r.len();
    while j > 0 && !t.key_le(&r[j - 1].1, &x.1)
        invariant
            j <= r@.len(),
            forall|k: int| j <= k < r@.len() ==> !entry_le(t.key(), #[trigger] r@[k], x),
        decreases j,
    {
        j = j - 1;
    }
    proof {
        lemma_insert_at(t.key(), r@, x, j as int);
    }
    r.insert(j, x);
}

/// Orders, filters and cuts an index as the search asks: keeps the entries
/// that qualify and are not left out, sorts them by the search's order, and
/// returns at most `limit` of them.
pub fn search(s: &Search, entries: Vec<Entry>) -> (r: Vec<Entry>)
    ensures
        r@ == search_result(*s, entries@),
{
    let ghost orig = entries@;
    let mut rest = entries;
    assert(orig.len() == rest.len());
    let mut sorted: Vec<Entry> = Vec::new();
    let mut i: usize = 0;
    while rest.len() > 0
        invariant
            i <= orig.len(),
            orig.len() <= usize::MAX,
            rest@ == orig.subrange(i as int, orig.len() as int),
            sorted@ == sorted_by(s.sort_type.key(), kept(*s, orig.subrange(0, i as int))),
        decreases rest@.len(),
    {
        let e = rest.remove(0);
        let ghost pre = orig.subrange(0, i + 1);
        assert(pre.drop_last() =~= orig.subrange(0, i as int));
        assert(rest@ =~= orig.subrange(i + 1, orig.len() as int));
        let keep = s.matches(&e.1) && !s.excludes(&e.0);
        if keep {
            let ghost before = kept(*s, orig.subrange(0, i as int));
            assert(kept(*s, pre) == before.push(e));
            assert(before.push(e).drop_last() =~= before);
            insert_in_order(&s.sort_type, &mut sorted, e);
        } else {
            assert(kept(*s, pre) == kept(*s, orig.subrange(0, i as int)));
        }
        i = i + 1;
    }
    assert(orig.subrange(0, i as int) =~= orig);
    let mut out: Vec<Entry> = Vec::new();
    if s.sort_type.is_descending() {
        let ghost full = sorted@;
        while sorted.len() > 0
            invariant
                reversed(full) == out@ + reversed(sorted@),
            decreases sorted@.len(),
        {
            let ghost before = sorted@;
            let x = sorted.pop().unwrap();
            assert(sorted@ =~= before.drop_last());
            assert(out@.push(x) + reversed(sorted@) =~= out@ + (seq![x] + reversed(sorted@)));
            out.push(x);
        }
        assert(out@ + reversed(sorted@) =~= out@);
    } else {
        out = sorted;
    }
    match s.limit {
        Some(n) => {
            if n < out.len() {
                out.truncate(n);
            }
        },
        None => {},
    }
    out
}

/// Every element of `q` qualifies for the search and is not left out.
pub open spec fn all_kept(s: Search, q: Seq<Entry>) -> bool {
    forall|i: int| 0 <= i < q.len() ==> entry_kept(s, #[trigger] q[i])
}

/// `q` is in ascending order by `key`.
pub open spec fn is_sorted(key: SortKey, q: Seq<Entry>) -> bool {
    forall|i: int, j: int| 0 <= i < j < q.len() ==> entry_le(key, #[trigger] q[i], #[trigger] q[j])
}

/// Every element of `q` comes no later than `b`.
pub open spec fn all_le(key: SortKey, q: Seq<Entry>, b: Entry) -> bool {
    forall|i: int| 0 <= i < q.len() ==> entry_le(key, #[trigger] q[i], b)
}

pub proof fn lemma_key_le_total(key: SortKey, a: Entry, b: Entry)
    ensures
        entry_le(key, a, b) || entry_le(key, b, a),
{
    lemma_date_le_total(a.1.created, b.1.created);
    lemma_date_le_total(a.1.updated, b.1.updated);
    lemma_seq_le_total(a.1.title@, b.1.title@);
}

pub proof fn lemma_key_le_trans(key: SortKey, a: Entry, b: Entry, c: Entry)
    requires
        entry_le(key, a, b),
        entry_le(key, b, c),
    ensures
        entry_le(key, a, c),
{
    match key {
        SortKey::Created => lemma_date_le_trans(a.1.created, b.1.created, c.1.created),
        SortKey::Updated => lemma_date_le_trans(a.1.updated, b.1.updated, c.1.updated),
        SortKey::Title => lemma_seq_le_trans(a.1.title@, b.1.title@, c.1.title@),
    }
}

proof fn lemma_kept_all_kept(s: Search, es: Seq<Entry>)
    ensures
        all_kept(s, kept(s, es)),
    decreases es.len(),
{
    if es.len() > 0 {
        lemma_kept_all_kept(s, es.drop_last());
    }
}

proof fn lemma_insert_all_kept(s: Search, key: SortKey, q: Seq<Entry>, x: Entry)
    requires
        all_kept(s, q),
        entry_kept(s, x),
    ensures
        all_kept(s, insert_sorted(key, q, x)),
    decreases q.len(),
{
    if q.len() > 0 && !entry_le(key, q.last(), x) {
        lemma_insert_all_kept(s, key, q.drop_last(), x);
    }
}

proof fn lemma_sorted_all_kept(s: Search, key: SortKey, q: Seq<Entry>)
    requires
        all_kept(s, q),
    ensures
        all_kept(s, sorted_by(key, q)),
    decreases q.len(),
{
    if q.len() > 0 {
        lemma_sorted_all_kept(s, key, q.drop_last());
        lemma_insert_all_kept(s, key, sorted_by(key, q.drop_last()), q.last());
    }
}

pub proof fn lemma_reversed_index<T>(q: Seq<T>, i: int)
    requires
        0 <= i < q.len(),
    ensures
        reversed(q).len() == q.len(),
        reversed(q)[i] == q[q.len() - 1 - i],
    decreases q.len(),
{
    lemma_reversed_len(q);
    if i > 0 {
        lemma_reversed_index(q.drop_last(), i - 1);
    }
}

pub proof fn lemma_reversed_len<T>(q: Seq<T>)
    ensures
        reversed(q).len() == q.len(),
    decreases q.len(),
{
    if q.len() > 0 {
        lemma_reversed_len(q.drop_last());
    }
}

proof fn lemma_insert_all_le(key: SortKey, q: Seq<Entry>, x: Entry, b: Entry)
    requires
        all_le(key, q, b),
        entry_le(key, x, b),
    ensures
        all_le(key, insert_sorted(key, q, x), b),
    decreases q.len(),
{
    if q.len() > 0 && !entry_le(key, q.last(), x) {
        lemma_insert_all_le(key, q.drop_last(), x, b);
    }
}

proof fn lemma_insert_sorted_order(key: SortKey, q: Seq<Entry>, x: Entry)
    requires
        is_sorted(key, q),
    ensures
        is_sorted(key, insert_sorted(key, q, x)),
    decreases q.len(),
{
    if q.len() == 0 {
    } else if entry_le(key, q.last(), x) {
        let r = q.push(x);
        assert forall|i: int, j: int| 0 <= i < j < r.len() implies entry_le(
            key,
            #[trigger] r[i],
            #[trigger] r[j],
        ) by {
            if j == q.len() && i < q.len() - 1 {
                lemma_key_le_trans(key, q[i], q.last(), x);
            }
        }
    } else {
        let p = q.drop_last();
        let b = q.last();
        lemma_key_le_total(key, b, x);
        lemma_insert_sorted_order(key, p, x);
        assert(all_le(key, p, b));
        lemma_insert_all_le(key, p, x, b);
        let m = insert_sorted(key, p, x);
        let r = m.push(b);
        assert forall|i: int, j: int| 0 <= i < j < r.len() implies entry_le(
            key,
            #[trigger] r[i],
            #[trigger] r[j],
        ) by {
            if j == m.len() {
                assert(r[i] == m[i]);
            }
        }
    }
}

proof fn lemma_sorted_by_order(key: SortKey, q: Seq<Entry>)
    ensures
        is_sorted(key, sorted_by(key, q)),
    decreases q.len(),
{
    if q.len() > 0 {
        lemma_sorted_by_order(key, q.drop_last());
        lemma_insert_sorted_order(key, sorted_by(key, q.drop_last()), q.last());
    }
}

proof fn lemma_reversed_all_kept(s: Search, q: Seq<Entry>)
    requires
        all_kept(s, q),
    ensures
        all_kept(s, reversed(q)),
{
    lemma_reversed_len(q);
    assert forall|i: int| 0 <= i < reversed(q).len() implies entry_kept(
        s,
        #[trigger] reversed(q)[i],
    ) by {
        lemma_reversed_index(q, i);
    }
}

/// Every entry a search returns qualifies for it: its dates lie in the
/// asked ranges, it is not hidden, it carries every asked-for tag, its title
/// holds the title filter, and its path is not among those left out. In
/// particular no hidden document is ever returned, whatever the criteria.
pub proof fn lemma_search_returns_only_qualifying(s: Search, es: Seq<Entry>)
    ensures
        all_kept(s, search_result(s, es)),
        forall|i: int|
            0 <= i < search_result(s, es).len() ==> !(#[trigger] search_result(s, es)[i]).1.hidden,
{
    let q = kept(s, es);
    lemma_kept_all_kept(s, es);
    lemma_sorted_all_kept(s, s.sort_type.key(), q);
    lemma_reversed_all_kept(s, sorted_by(s.sort_type.key(), q));
    let o = ordered(s.sort_type, q);
    let r = search_result(s, es);
    assert forall|i: int| 0 <= i < r.len() implies entry_kept(s, #[trigger] r[i]) by {
        assert(r[i] == o[i]);
    }
}

/// A search returns its entries in its order: ascending by the order's field
/// for an ascending order, descending for a descending one.
pub proof fn lemma_search_result_in_order(s: Search, es: Seq<Entry>)
    ensures
        forall|i: int, j: int|
            0 <= i < j < search_result(s, es).len() ==> if s.sort_type.descending() {
                entry_le(
                    s.sort_type.key(),
                    #[trigger] search_result(s, es)[j],
                    #[trigger] search_result(s, es)[i],
                )
            } else {
                entry_le(s.sort_type.key(), search_result(s, es)[i], search_result(s, es)[j])
            },
{
    let key = s.sort_type.key();
    let q = sorted_by(key, kept(s, es));
    lemma_sorted_by_order(key, kept(s, es));
    lemma_reversed_len(q);
    let o = ordered(s.sort_type, kept(s, es));
    let r = search_result(s, es);
    assert forall|i: int, j: int| 0 <= i < j < r.len() implies if s.sort_type.descending() {
        entry_le(key, #[trigger] r[j], #[trigger] r[i])
    } else {
        entry_le(key, r[i], r[j])
    } by {
        assert(r[i] == o[i] && r[j] == o[j]);
        if s.sort_type.descending() {
            lemma_reversed_index(q, i);
            lemma_reversed_index(q, j);
            assert(entry_le(key, q[q.len() - 1 - j], q[q.len() - 1 - i]));
        }
    }
}

/// The two searches ask for the same documents; they may differ in order
/// and limit.
pub open spec fn same_criteria(s: Search, t: Search) -> bool {
    &&& s.exclude_paths@ == t.exclude_paths@
    &&& s.tags@ == t.tags@
    &&& s.created == t.created
    &&& s.updated == t.updated
    &&& s.title_filter == t.title_filter
}

proof fn lemma_kept_same(s: Search, t: Search, es: Seq<Entry>)
    requires
        same_criteria(s, t),
    ensures
        kept(s, es) == kept(t, es),
    decreases es.len(),
{
    if es.len() > 0 {
        lemma_kept_same(s, t, es.drop_last());
        let e = es.last();
        assert(has_all_tags(s, *e.1) == has_all_tags(t, *e.1));
        assert(is_excluded(s, e.0@) == is_excluded(t, e.0@));
    }
}

/// Without a limit, a search in a descending order returns exactly the
/// result of the same search in the ascending order on the same field, back
/// to front: ties are not broken differently.
pub proof fn lemma_descending_reverses_ascending(asc: Search, desc: Search, es: Seq<Entry>)
    requires
        same_criteria(asc, desc),
        asc.sort_type.key() == desc.sort_type.key(),
        !asc.sort_type.descending(),
        desc.sort_type.descending(),
        asc.limit is None,
        desc.limit is None,
    ensures
        search_result(desc, es) == reversed(search_result(asc, es)),
{
    lemma_kept_same(asc, desc, es);
}

proof fn lemma_insert_sorted_multiset(key: SortKey, q: Seq<Entry>, x: Entry)
    ensures
        insert_sorted(key, q, x).to_multiset() == q.to_multiset().insert(x),
    decreases q.len(),
{
    broadcast use vstd::multiset::group_multiset_axioms;

    if q.len() == 0 || entry_le(key, q.last(), x) {
        to_multiset_build(q, x);
        if q.len() == 0 {
            assert(seq![x] =~= q.push(x));
        }
    } else {
        let p = q.drop_last();
        let l = q.last();
        lemma_insert_sorted_multiset(key, p, x);
        to_multiset_build(insert_sorted(key, p, x), l);
        to_multiset_build(p, l);
        assert(p.push(l) =~= q);
        assert(p.to_multiset().insert(x).insert(l) =~= p.to_multiset().insert(l).insert(x));
    }
}

/// Sorting keeps every entry: the sorted list holds the same entries, each
/// as many times.
pub proof fn lemma_sorted_by_permutes(key: SortKey, q: Seq<Entry>)
    ensures
        sorted_by(key, q).to_multiset() == q.to_multiset(),
    decreases q.len(),
{
    if q.len() > 0 {
        let p = q.drop_last();
        lemma_sorted_by_permutes(key, p);
        lemma_insert_sorted_multiset(key, sorted_by(key, p), q.last());
        to_multiset_build(p, q.last());
        assert(p.push(q.last()) =~= q);
    }
}

proof fn lemma_kept_complete(s: Search, es: Seq<Entry>, i: int)
    requires
        0 <= i < es.len(),
        entry_kept(s, es[i]),
    ensures
        kept(s, es).contains(es[i]),
    decreases es.len(),
{
    if i < es.len() - 1 {
        lemma_kept_complete(s, es.drop_last(), i);
        let r = kept(s, es.drop_last());
        let k = choose|k: int| 0 <= k < r.len() && r[k] == es[i];
        if entry_kept(s, es.last()) {
            assert(r.push(es.last())[k] == es[i]);
        }
    } else {
        let r = kept(s, es.drop_last());
        assert(r.push(es.last())[r.len() as int] == es[i]);
    }
}

/// Without a limit, a search returns every entry of the index that
/// qualifies for it and is not left out.
pub proof fn lemma_search_returns_every_match(s: Search, es: Seq<Entry>, i: int)
    requires
        s.limit is None,
        0 <= i < es.len(),
        entry_kept(s, es[i]),
    ensures
        search_result(s, es).contains(es[i]),
{
    let q = kept(s, es);
    let key = s.sort_type.key();
    lemma_kept_complete(s, es, i);
    lemma_sorted_by_permutes(key, q);
    to_multiset_contains(q, es[i]);
    to_multiset_contains(sorted_by(key, q), es[i]);
    let o = sorted_by(key, q);
    if s.sort_type.descending() {
        let k = choose|k: int| 0 <= k < o.len() && o[k] == es[i];
        lemma_reversed_index(o, o.len() - 1 - k);
        assert(reversed(o)[o.len() - 1 - k] == es[i]);
    }
}

proof fn lemma_kept_from_index(s: Search, es: Seq<Entry>)
    ensures
        forall|i: int| 0 <= i < kept(s, es).len() ==> es.contains(#[trigger] kept(s, es)[i]),
    decreases es.len(),
{
    if es.len() > 0 {
        let p = es.drop_last();
        lemma_kept_from_index(s, p);
        let r = kept(s, es);
        assert forall|i: int| 0 <= i < r.len() implies es.contains(#[trigger] r[i]) by {
            if i < kept(s, p).len() {
                let k = choose|k: int| 0 <= k < p.len() && p[k] == kept(s, p)[i];
                assert(es[k] == p[k]);
            } else {
                assert(es[es.len() - 1] == es.last());
            }
        }
    }
}

/// Every entry a search returns is an entry of the index it was given.
pub proof fn lemma_search_results_come_from_index(s: Search, es: Seq<Entry>)
    ensures
        forall|i: int|
            0 <= i < search_result(s, es).len() ==> es.contains(#[trigger] search_result(s, es)[i]),
{
    let q = kept(s, es);
    let key = s.sort_type.key();
    let o = sorted_by(key, q);
    lemma_kept_from_index(s, es);
    lemma_sorted_by_permutes(key, q);
    lemma_reversed_len(o);
    let r = search_result(s, es);
    let d = ordered(s.sort_type, q);
    assert forall|i: int| 0 <= i < r.len() implies es.contains(#[trigger] r[i]) by {
        assert(r[i] == d[i]);
        let j = if s.sort_type.descending() {
            lemma_reversed_index(o, i);
            o.len() - 1 - i
        } else {
            i
        };
        assert(d[i] == o[j]);
        to_multiset_contains(o, o[j]);
        assert(o.contains(o[j]));
        to_multiset_contains(q, o[j]);
        let k = choose|k: int| 0 <= k < q.len() && q[k] == o[j];
        assert(es.contains(q[k]));
    }
}

/// No entry of `q` has the path `p`.
pub open spec fn avoids(q: Seq<Entry>, p: Seq<char>) -> bool {
    forall|i: int| 0 <= i < q.len() ==> (#[trigger] q[i]).0@ != p
}

proof fn lemma_kept_unique(s: Search, es: Seq<Entry>)
    requires
        unique_paths(es),
    ensures
        unique_paths(kept(s, es)),
    decreases es.len(),
{
    if es.len() > 0 {
        let p = es.drop_last();
        assert(unique_paths(p)) by {
            assert forall|i: int, j: int| 0 <= i < j < p.len() implies (#[trigger] p[i]).0@ != (
            #[trigger] p[j]).0@ by {
                assert(p[i] == es[i] && p[j] == es[j]);
            }
        }
        lemma_kept_unique(s, p);
        lemma_kept_from_index(s, p);
        let m = kept(s, p);
        let l = es.last();
        assert forall|i: int| 0 <= i < m.len() implies (#[trigger] m[i]).0@ != l.0@ by {
            let k = choose|k: int| 0 <= k < p.len() && p[k] == m[i];
            assert(es[k] == p[k]);
            assert(es[es.len() - 1] == l);
        }
    }
}

proof fn lemma_insert_avoids(key: SortKey, q: Seq<Entry>, x: Entry, p: Seq<char>)
    requires
        avoids(q, p),
        x.0@ != p,
    ensures
        avoids(insert_sorted(key, q, x), p),
    decreases q.len(),
{
    if q.len() > 0 && !entry_le(key, q.last(), x) {
        lemma_insert_avoids(key, q.drop_last(), x, p);
    }
}

proof fn lemma_insert_unique(key: SortKey, q: Seq<Entry>, x: Entry)
    requires
        unique_paths(q),
        avoids(q, x.0@),
    ensures
        unique_paths(insert_sorted(key, q, x)),
    decreases q.len(),
{
    if q.len() > 0 && !entry_le(key, q.last(), x) {
        let p = q.drop_last();
        let l = q.last();
        assert(unique_paths(p));
        lemma_insert_unique(key, p, x);
        assert(avoids(p, l.0@)) by {
            assert forall|i: int| 0 <= i < p.len() implies (#[trigger] p[i]).0@ != l.0@ by {
                assert(q[i] == p[i] && q[q.len() - 1] == l);
            }
        }
        lemma_insert_avoids(key, p, x, l.0@);
    }
}

proof fn lemma_sorted_unique(key: SortKey, q: Seq<Entry>)
    requires
        unique_paths(q),
    ensures
        unique_paths(sorted_by(key, q)),
    decreases q.len(),
{
    if q.len() > 0 {
        let p = q.drop_last();
        let l = q.last();
        assert(unique_paths(p));
        lemma_sorted_unique(key, p);
        lemma_sorted_by_permutes(key, p);
        let o = sorted_by(key, p);
        assert forall|i: int| 0 <= i < o.len() implies (#[trigger] o[i]).0@ != l.0@ by {
            to_multiset_contains(o, o[i]);
            assert(o.contains(o[i]));
            to_multiset_contains(p, o[i]);
            let k = choose|k: int| 0 <= k < p.len() && p[k] == o[i];
            assert(q[k] == p[k] && q[q.len() - 1] == l);
        }
        lemma_insert_unique(key, o, l);
    }
}

/// A search of an index whose paths are distinct returns distinct paths.
pub proof fn lemma_search_paths_unique(s: Search, es: Seq<Entry>)
    requires
        unique_paths(es),
    ensures
        unique_paths(search_result(s, es)),
{
    let q = kept(s, es);
    let key = s.sort_type.key();
    let o = sorted_by(key, q);
    lemma_kept_unique(s, es);
    lemma_sorted_unique(key, q);
    lemma_reversed_len(o);
    let d = ordered(s.sort_type, q);
    let r = search_result(s, es);
    assert forall|i: int, j: int| 0 <= i < j < r.len() implies (#[trigger] r[i]).0@ != (
    #[trigger] r[j]).0@ by {
        assert(r[i] == d[i] && r[j] == d[j]);
        if s.sort_type.descending() {
            lemma_reversed_index(o, i);
            lemma_reversed_index(o, j);
        }
    }
}

} // verus!
