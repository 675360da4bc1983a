use crate::date::{lemma_late_date_is_set, local_date, near_utc_day, Date, NANOS_PER_DAY};
use crate::error::ArticleError;
use crate::index::{is_visible_under, visible_entries, visible_under};
use crate::search::Entry;
use crate::meta::ArticleMeta;
use dashmap::{DashMap, DashSet};
use std::sync::Arc;
use vstd::prelude::*;

verus! {

#[verifier::external_type_specification]
#[verifier::external_body]
pub struct ExPandoc(pandoc_ast::Pandoc);

#[verifier::external_type_specification]
#[verifier::external_body]
#[verifier::reject_recursive_types(K)]
#[verifier::reject_recursive_types(V)]
#[verifier::reject_recursive_types(S)]
pub struct ExDashMap<K, V, S>(DashMap<K, V, S>);

#[verifier::external_type_specification]
#[verifier::external_body]
#[verifier::reject_recursive_types(K)]
#[verifier::reject_recursive_types(S)]
pub struct ExDashSet<K, S>(DashSet<K, S>);

/// A document rendered to HTML, with its metadata and the time the render
/// completed, in nanoseconds since the Unix epoch.
#[derive(Clone, Debug)]
pub struct Article {
    pub content: String,
    pub meta: Arc<ArticleMeta>,
    pub rendered_at: u64,
}

/// A document parsed into the converter's tree, with the metadata read from
/// it and the time the parse completed, in nanoseconds since the Unix epoch.
pub struct ParsedDoc {
    pub meta: Arc<ArticleMeta>,
    pub ast: Arc<pandoc_ast::Pandoc>,
    pub parsed_at: u64,
}

/// A value that a cache tier keeps: it knows when it was made and whether
/// its document asks to be made anew on every request.
pub trait Cached {
    spec fn completed_at(&self) -> u64;

    spec fn rerenders(&self) -> bool;

    fn stamp(&self) -> (r: u64)
        ensures
            r == self.completed_at(),
    ;

    fn always_rerender(&self) -> (r: bool)
        ensures
            r == self.rerenders(),
    ;
}

impl Cached for Article {
    open spec fn completed_at(&self) -> u64 {
        self.rendered_at
    }

    open spec fn rerenders(&self) -> bool {
        self.meta.always_rerender
    }

    fn stamp(&self) -> (r: u64) {
        self.rendered_at
    }

    fn always_rerender(&self) -> (r: bool) {
        self.meta.always_rerender
    }
}

impl Cached for ParsedDoc {
    open spec fn completed_at(&self) -> u64 {
        self.parsed_at
    }

    open spec fn rerenders(&self) -> bool {
        self.meta.always_rerender
    }

    fn stamp(&self) -> (r: u64) {
        self.parsed_at
    }

    fn always_rerender(&self) -> (r: bool) {
        self.meta.always_rerender
    }
}

/// A cached value may be served as it is: it was completed no earlier than
/// the file's last modification, and its document does not ask to be made
/// anew on every request.
pub open spec fn is_fresh<E: Cached>(e: E, disk_modified: u64) -> bool {
    e.completed_at() >= disk_modified && !e.rerenders()
}

/// What a cache tier holds for a path, judged against the file on disk.
pub enum Lookup<E> {
    /// The file cannot be read: there is no document.
    Missing,
    /// The cached value may be served as it is.
    Fresh(Arc<E>),
    /// The value must be made anew; the cached one, if any, is the fallback.
    Stale(Option<Arc<E>>),
}

/// Judges a cached value against the file's modification time; `None` for
/// the time means the file could not be read.
pub fn judge<E: Cached>(disk_modified: Option<u64>, cached: Option<Arc<E>>) -> (r: Lookup<E>)
    ensures
        disk_modified is None ==> r is Missing,
        disk_modified matches Some(d) ==> match cached {
            Some(c) => if is_fresh(*c, d) {
                r matches Lookup::Fresh(x) && x == c
            } else {
                r matches Lookup::Stale(p) && p == Some(c)
            },
            None => r matches Lookup::Stale(p) && p is None,
        },
{
    match disk_modified {
        None => Lookup::Missing,
        Some(d) => match cached {
            Some(c) => {
                if c.stamp() >= d && !c.always_rerender() {
                    Lookup::Fresh(c)
                } else {
                    Lookup::Stale(Some(c))
                }
            },
            None => Lookup::Stale(None),
        },
    }
}

/// What a request gets after an attempt to make the value anew: the new
/// value if there is one, else the previous one, else the failure.
pub open spec fn settled<E>(outcome: Result<E, ArticleError>, previous: Option<Arc<E>>) -> Result<
    E,
    ArticleError,
> {
    match outcome {
        Ok(v) => Ok(v),
        Err(e) => match previous {
            Some(p) => Ok(*p),
            None => Err(e),
        },
    }
}

/// A rendered document that is not marked ready counts as a failure with
/// `NotForPublication`.
pub open spec fn publishable(outcome: Result<Article, ArticleError>) -> Result<
    Article,
    ArticleError,
> {
    match outcome {
        Ok(a) => if a.meta.ready {
            Ok(a)
        } else {
            Err(ArticleError::NotForPublication)
        },
        Err(e) => Err(e),
    }
}

/// Fills in the dates that the front matter left unset: `updated` from the
/// file's modification date, `created` from its creation date.
pub fn backfill_dates(meta: &mut ArticleMeta, modified: Date, created: Date)
    ensures
        final(meta).updated == if old(meta).updated == Date::spec_unset() {
            modified
        } else {
            old(meta).updated
        },
        final(meta).created == if old(meta).created == Date::spec_unset() {
            created
        } else {
            old(meta).created
        },
        final(meta).title == old(meta).title,
        final(meta).blurb == old(meta).blurb,
        final(meta).tags == old(meta).tags,
        final(meta).template == old(meta).template,
        final(meta).toc == old(meta).toc,
        final(meta).exclude_from_rss == old(meta).exclude_from_rss,
        final(meta).hidden == old(meta).hidden,
        final(meta).ready == old(meta).ready,
        final(meta).always_rerender == old(meta).always_rerender,
        final(meta).extra == old(meta).extra,
{
    if meta.updated.is_unset() {
        meta.updated = modified;
    }
    if meta.created.is_unset() {
        meta.created = created;
    }
}

/// Fills in the unset dates from the file's timestamps, in nanoseconds since
/// the Unix epoch, as calendar dates in the local time zone.
pub fn resolve_dates(meta: &mut ArticleMeta, modified_nanos: u64, created_nanos: u64)
    ensures
        old(meta).updated != Date::spec_unset() ==> final(meta).updated == old(meta).updated,
        old(meta).created != Date::spec_unset() ==> final(meta).created == old(meta).created,
        old(meta).updated == Date::spec_unset() ==> final(meta).updated.valid() && near_utc_day(
            final(meta).updated,
            modified_nanos,
        ),
        old(meta).created == Date::spec_unset() ==> final(meta).created.valid() && near_utc_day(
            final(meta).created,
            created_nanos,
        ),
        old(meta).updated == Date::spec_unset() && modified_nanos >= 2 * NANOS_PER_DAY
            ==> final(meta).updated != Date::spec_unset(),
        old(meta).created == Date::spec_unset() && created_nanos >= 2 * NANOS_PER_DAY
            ==> final(meta).created != Date::spec_unset(),
        final(meta).title == old(meta).title,
        final(meta).tags == old(meta).tags,
        final(meta).hidden == old(meta).hidden,
        final(meta).ready == old(meta).ready,
        final(meta).always_rerender == old(meta).always_rerender,
{
    let modified = if meta.updated.is_unset() {
        local_date(modified_nanos)
    } else {
        meta.updated
    };
    let created = if meta.created.is_unset() {
        local_date(created_nanos)
    } else {
        meta.created
    };
    backfill_dates(meta, modified, created);
    proof {
        if old(meta).updated == Date::spec_unset() && modified_nanos >= 2 * NANOS_PER_DAY {
            lemma_late_date_is_set(meta.updated, modified_nanos);
        }
        if old(meta).created == Date::spec_unset() && created_nanos >= 2 * NANOS_PER_DAY {
            lemma_late_date_is_set(meta.created, created_nanos);
        }
    }
}

/// A value completed no earlier than the file's last change is served as it
/// is, so repeated requests with no change on disk render nothing and get the
/// very same value; once the file changes after the value was completed, the
/// next request renders anew. A document that asks to be rendered on every
/// request is never served from the cache.
pub proof fn lemma_staleness<E: Cached>(e: E, disk_modified: u64)
    ensures
        !e.rerenders() ==> (is_fresh(e, disk_modified) <==> disk_modified <= e.completed_at()),
        e.rerenders() ==> !is_fresh(e, disk_modified),
{
}

/// A render that succeeds and is ready for publication is what the request
/// gets, whatever was cached before; and when it completed no earlier than
/// the file's last change, every later request with no change on disk is
/// served that very value without rendering again.
pub proof fn lemma_published_render_is_served(
    a: Article,
    previous: Option<Arc<Article>>,
    disk_modified: u64,
)
    requires
        a.meta.ready,
        !a.meta.always_rerender,
        a.rendered_at >= disk_modified,
    ensures
        settled(publishable(Ok(a)), previous) == Ok::<Article, ArticleError>(a),
        is_fresh(a, disk_modified),
{
}

/// A failed render never takes away a value that was served before: with a
/// previous value, a request gets that value whatever the failure; only a
/// first render can fail outright. A rendering not ready for publication
/// counts as such a failure.
pub proof fn lemma_failure_falls_back(
    outcome: Result<Article, ArticleError>,
    previous: Arc<Article>,
)
    ensures
        outcome is Err ==> settled(publishable(outcome), Some(previous)) == Ok::<
            Article,
            ArticleError,
        >(*previous),
        outcome matches Ok(a) && !a.meta.ready ==> settled(publishable(outcome), Some(previous))
            == Ok::<Article, ArticleError>(*previous),
        outcome matches Ok(a) && !a.meta.ready ==> settled(publishable(outcome), None) == Err::<
            Article,
            ArticleError,
        >(ArticleError::NotForPublication),
{
}

/// Relies on `Arc::clone`: a second handle to the same value.
#[verifier::external_body]
fn share<T>(a: &Arc<T>) -> (r: Arc<T>)
    ensures
        r == *a,
{
    Arc::clone(a)
}

/// Relies on `DashMap::new`: an empty table.
#[verifier::external_body]
fn new_table<V>() -> DashMap<String, V> {
    DashMap::new()
}

/// Relies on `DashMap::get`: a copy of the value stored for the key when the
/// call ran, if any. Other tasks change the table at any time, so nothing is
/// promised of which value comes back.
#[verifier::external_body]
fn table_get<V: Clone>(m: &DashMap<String, V>, k: &String) -> Option<V> {
    m.get(k).map(|r| r.value().clone())
}

/// Relies on `DashMap::insert`: stores the value for the key, in place of
/// any earlier one.
#[verifier::external_body]
fn table_insert<V>(m: &DashMap<String, V>, k: String, v: V) {
    m.insert(k, v);
}

/// Relies on `DashMap::iter`: the keys and values of the table, in no
/// particular order.
#[verifier::external_body]
fn table_entries<V: Clone>(m: &DashMap<String, V>) -> Vec<(String, V)> {
    m.iter().map(|kv| (kv.key().clone(), kv.value().clone())).collect()
}

/// Relies on `DashSet::new`: an empty set.
#[verifier::external_body]
fn new_set() -> DashSet<String> {
    DashSet::new()
}

/// Relies on `DashSet::insert`: adds the key; the result tells whether it
/// was absent. Other tasks change the set at any time.
#[verifier::external_body]
fn set_insert(s: &DashSet<String>, k: String) -> bool {
    s.insert(k)
}

/// Relies on `DashSet::remove`: takes the key out of the set.
#[verifier::external_body]
fn set_remove(s: &DashSet<String>, k: &String) {
    s.remove(k);
}

/// Whether what a request got matches the settled outcome.
pub open spec fn served_as<E>(r: Result<Arc<E>, ArticleError>, s: Result<E, ArticleError>) -> bool {
    match r {
        Ok(a) => s == Ok::<E, ArticleError>(*a),
        Err(e) => s == Err::<E, ArticleError>(e),
    }
}

/// What a request does after judging a cache tier: answer at once, or make
/// the value anew, with the cached one, if any, as the fallback.
pub enum Step<E> {
    Serve(Result<Arc<E>, ArticleError>),
    Render(Option<Arc<E>>),
}

/// The step that follows a judgement: a file that cannot be read has no
/// document, a fresh value is served as it is, a stale one is made anew.
pub fn next_step<E>(l: Lookup<E>) -> (r: Step<E>)
    ensures
        match l {
            Lookup::Missing => r matches Step::Serve(Err(e)) && e is NoArticle,
            Lookup::Fresh(a) => r matches Step::Serve(Ok(x)) && x == a,
            Lookup::Stale(p) => r matches Step::Render(q) && q == p,
        },
{
    match l {
        Lookup::Missing => Step::Serve(Err(ArticleError::NoArticle)),
        Lookup::Fresh(a) => Step::Serve(Ok(a)),
        Lookup::Stale(p) => Step::Render(p),
    }
}

/// The metadata of each parsed document, by path, in order.
pub open spec fn metas_of(s: Seq<(String, Arc<ParsedDoc>)>) -> Seq<Entry> {
    s.map_values(|e: (String, Arc<ParsedDoc>)| (e.0, e.1.meta))
}

/// The index that a snapshot of the parsed tier gives: the documents under
/// `root` that are not hidden, with their metadata, in the snapshot's order.
pub fn index_of_trees(all: Vec<(String, Arc<ParsedDoc>)>, root: &String) -> (r: Vec<Entry>)
    ensures
        r@ == visible_entries(metas_of(all@), root@),
        forall|i: int| 0 <= i < r@.len() ==> is_visible_under(#[trigger] r@[i], root@),
{
    let mut metas: Vec<Entry> = Vec::new();
    let mut i: usize = 0;
    while i < all.len()
        invariant
            i <= all@.len(),
            metas@ == metas_of(all@).subrange(0, i as int),
        decreases all@.len() - i,
    {
        metas.push((all[i].0.clone(), share(&all[i].1.meta)));
        assert(metas@ =~= metas_of(all@).subrange(0, i + 1));
        i = i + 1;
    }
    assert(metas@ =~= metas_of(all@));
    visible_under(metas, root)
}

/// The two cache tiers of the documents and, for each, the set of paths
/// whose making is under way. All three are shared by concurrent requests; each update
/// replaces a whole entry.
pub struct DocumentCache {
    articles: DashMap<String, Arc<Article>>,
    trees: DashMap<String, Arc<ParsedDoc>>,
    busy: DashSet<String>,
    rendering: DashSet<String>,
}

impl DocumentCache {
    /// Empty tiers, and no parse under way.
    pub fn new() -> Self {
        DocumentCache {
            articles: new_table(),
            trees: new_table(),
            busy: new_set(),
            rendering: new_set(),
        }
    }

    /// Judges the rendered entry for `path` against the file's modification
    /// time; `None` for the time means the file could not be read.
    pub fn lookup_article(&self, path: &String, disk_modified: Option<u64>) -> (r: Lookup<Article>)
        ensures
            disk_modified is None <==> r is Missing,
            r matches Lookup::Fresh(a) ==> is_fresh(*a, disk_modified->0),
            r matches Lookup::Stale(Some(a)) ==> !is_fresh(*a, disk_modified->0),
    {
        judge(disk_modified, table_get(&self.articles, path))
    }

    /// Judges the parsed entry for `path` against the file's modification
    /// time, as `lookup_article` does.
    pub fn lookup_tree(&self, path: &String, disk_modified: Option<u64>) -> (r: Lookup<ParsedDoc>)
        ensures
            disk_modified is None <==> r is Missing,
            r matches Lookup::Fresh(a) ==> is_fresh(*a, disk_modified->0),
            r matches Lookup::Stale(Some(a)) ==> !is_fresh(*a, disk_modified->0),
    {
        judge(disk_modified, table_get(&self.trees, path))
    }

    /// Marks a render of `path` to HTML as under way. False when one already
    /// is: the caller must not render it again.
    pub fn claim_render(&self, path: &String) -> bool {
        set_insert(&self.rendering, path.clone())
    }

    /// What a request gets while another render of `path` is under way: the
    /// rendered entry as it stands, or `NoArticle` when there is none.
    pub fn current_article(&self, path: &String) -> (r: Result<Arc<Article>, ArticleError>)
        ensures
            r matches Err(e) ==> e is NoArticle,
    {
        match table_get(&self.articles, path) {
            Some(a) => Ok(a),
            None => Err(ArticleError::NoArticle),
        }
    }

    /// Ends a render of `path`, whether it succeeded or not: a new rendering
    /// that is ready for publication replaces the entry and is returned;
    /// otherwise the previous entry is returned, or the failure when there is
    /// none. The path is no longer marked as under way.
    pub fn finish_article(
        &self,
        path: &String,
        outcome: Result<Article, ArticleError>,
        previous: Option<Arc<Article>>,
    ) -> (r: Result<Arc<Article>, ArticleError>)
        ensures
            served_as(r, settled(publishable(outcome), previous)),
    {
        let outcome = match outcome {
            Ok(a) => if a.meta.ready {
                Ok(a)
            } else {
                Err(ArticleError::NotForPublication)
            },
            Err(e) => Err(e),
        };
        let r = match outcome {
            Ok(a) => {
                let a = Arc::new(a);
                table_insert(&self.articles, path.clone(), share(&a));
                Ok(a)
            },
            Err(e) => match previous {
                Some(p) => Ok(p),
                None => Err(e),
            },
        };
        set_remove(&self.rendering, path);
        r
    }

    /// Marks a parse of `path` as under way. False when one already is: the
    /// caller must not parse it again.
    pub fn claim(&self, path: &String) -> bool {
        set_insert(&self.busy, path.clone())
    }

    /// What a request gets while another parse of `path` is under way: the
    /// cached entry as it stands, or `NoArticle` when there is none.
    pub fn current_tree(&self, path: &String) -> (r: Result<Arc<ParsedDoc>, ArticleError>)
        ensures
            r matches Err(e) ==> e is NoArticle,
    {
        match table_get(&self.trees, path) {
            Some(t) => Ok(t),
            None => Err(ArticleError::NoArticle),
        }
    }

    /// Ends a parse of `path`, whether it succeeded or not: a new value
    /// replaces the entry and is returned; otherwise the previous entry is
    /// returned, or the failure when there is none. The path is no longer
    /// marked as under way.
    pub fn finish_tree(
        &self,
        path: &String,
        outcome: Result<ParsedDoc, ArticleError>,
        previous: Option<Arc<ParsedDoc>>,
    ) -> (r: Result<Arc<ParsedDoc>, ArticleError>)
        ensures
            served_as(r, settled(outcome, previous)),
    {
        let r = match outcome {
            Ok(t) => {
                let t = Arc::new(t);
                table_insert(&self.trees, path.clone(), share(&t));
                Ok(t)
            },
            Err(e) => match previous {
                Some(p) => Ok(p),
                None => Err(e),
            },
        };
        set_remove(&self.busy, path);
        r
    }

    /// The index as the parsed tier holds it when read: the documents under
    /// `root` that are not hidden.
    pub fn cached_index(&self, root: &String) -> (r: Vec<Entry>)
        ensures
            forall|i: int| 0 <= i < r@.len() ==> is_visible_under(#[trigger] r@[i], root@),
    {
        index_of_trees(table_entries(&self.trees), root)
    }
}

} // verus!
