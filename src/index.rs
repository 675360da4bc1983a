use crate::search::Entry;
use crate::text::{chars_of, str_eq};
use vstd::prelude::*;

verus! {

/// Seconds that must pass after a full walk of the document root before the
/// next index call walks the disk again.
pub const FULL_SCAN_INTERVAL: u64 = 1800;

/// `p` is `root` or lies below it, comparing whole path components; every
/// path lies below the empty root.
pub open spec fn is_under(p: Seq<char>, root: Seq<char>) -> bool {
    ||| root.len() == 0
    ||| p == root
    ||| (root.len() < p.len() && p.take(root.len() as int) == root && (root.last() == '/'
        || p[root.len() as int] == '/'))
}

/// The entry lies under `root` and its document is not hidden.
pub open spec fn is_visible_under(e: Entry, root: Seq<char>) -> bool {
    is_under(e.0@, root) && !e.1.hidden
}

/// The entries of `es` that lie under `root` and are not hidden, in order.
pub open spec fn visible_entries(es: Seq<Entry>, root: Seq<char>) -> Seq<Entry>
    decreases es.len(),
{
    if es.len() == 0 {
        es
    } else {
        let r = visible_entries(es.drop_last(), root);
        if is_visible_under(es.last(), root) {
            r.push(es.last())
        } else {
            r
        }
    }
}

/// Whether the path `p` is `root` or lies below it, by whole components.
pub fn under_root(p: &str, root: &str) -> (r: bool)
    ensures
        r == is_under(p@, root@),
{
    let pc = chars_of(p);
    let rc = chars_of(root);
    if rc.len() == 0 {
        return true;
    }
    if rc.len() > pc.len() {
        return false;
    }
    let mut i: usize = 0;
    while i < rc.len()
        invariant
            pc@ == p@,
            rc@ == root@,
            rc@.len() <= pc@.len(),
            i <= rc@.len(),
            forall|k: int| 0 <= k < i ==> pc@[k] == rc@[k],
        decreases rc@.len() - i,
    {
        if pc[i] != rc[i] {
            assert(p@.take(root@.len() as int)[i as int] != root@[i as int]);
            return false;
        }
        i = i + 1;
    }
    assert(p@.take(root@.len() as int) =~= root@);
    if rc.len() == pc.len() {
        assert(p@ =~= root@);
        return true;
    }
    rc[rc.len() - 1] == '/' || pc[rc.len()] == '/'
}

/// Whether the entry lies under `root` and its document is not hidden.
pub fn visible_entry(e: &Entry, root: &String) -> (r: bool)
    ensures
        r == is_visible_under(*e, root@),
{
    !e.1.hidden && under_root(e.0.as_str(), root.as_str())
}

/// The entries that lie under `root` and whose documents are not hidden,
/// in their order.
pub fn visible_under(entries: Vec<Entry>, root: &String) -> (r: Vec<Entry>)
    ensures
        r@ == visible_entries(entries@, root@),
        forall|i: int| 0 <= i < r@.len() ==> is_visible_under(#[trigger] r@[i], root@),
{
    let ghost orig = entries@;
    let mut rest = entries;
    assert(orig.len() == rest.len());
    let mut out: Vec<Entry> = Vec::new();
    let mut i: usize = 0;
    while rest.len() > 0
        invariant
            i <= orig.len(),
            orig.len() <= usize::MAX,
            rest@ == orig.subrange(i as int, orig.len() as int),
            out@ == visible_entries(orig.subrange(0, i as int), root@),
            forall|k: int| 0 <= k < out@.len() ==> is_visible_under(#[trigger] out@[k], root@),
        decreases rest@.len(),
    {
        let e = rest.remove(0);
        assert(orig.subrange(0, i + 1).drop_last() =~= orig.subrange(0, i as int));
        assert(rest@ =~= orig.subrange(i + 1, orig.len() as int));
        if visible_entry(&e, root) {
            out.push(e);
        }
        i = i + 1;
    }
    assert(orig.subrange(0, i as int) =~= orig);
    out
}

/// `p` names a document file: it ends in `.md` after a non-empty file name.
pub open spec fn is_document(p: Seq<char>) -> bool {
    &&& p.len() > 3
    &&& p.subrange(p.len() - 3, p.len() as int) == ".md"@
    &&& p[p.len() - 4] != '/'
}

/// Whether `p` names a document file.
pub fn is_document_path(p: &str) -> (r: bool)
    ensures
        r == is_document(p@),
{
    proof {
        reveal_strlit(".md");
    }
    let c = chars_of(p);
    let n = c.len();
    if n <= 3 {
        return false;
    }
    let r = c[n - 3] == '.' && c[n - 2] == 'm' && c[n - 1] == 'd' && c[n - 4] != '/';
    assert(r == is_document(p@)) by {
        if c[n - 3] == '.' && c[n - 2] == 'm' && c[n - 1] == 'd' {
            assert(p@.subrange(n - 3, n as int) =~= ".md"@);
        }
        if p@.subrange(n - 3, n as int) == ".md"@ {
            assert(p@.subrange(n - 3, n as int)[0] == '.');
            assert(p@.subrange(n - 3, n as int)[1] == 'm');
            assert(p@.subrange(n - 3, n as int)[2] == 'd');
        }
    }
    r
}

/// Whether the last full walk of the document root lies far enough back
/// that the next index call must walk the disk. A walk that never happened
/// lies infinitely far back.
pub open spec fn scan_due(last: Option<u64>, now: u64) -> bool {
    match last {
        None => true,
        Some(t) => now > t && now - t > FULL_SCAN_INTERVAL,
    }
}

/// The time of the last full walk after an index call at `now`: a walk of
/// the document root itself resets it; a walk of a directory below does not.
pub open spec fn after_begin(last: Option<u64>, now: u64, whole_root: bool) -> Option<u64> {
    if scan_due(last, now) && whole_root {
        Some(now)
    } else {
        last
    }
}

/// When the document root was last walked in full, in seconds on a clock
/// that does not go back.
pub struct Throttle {
    pub last_full_scan: Option<u64>,
}

impl Throttle {
    /// No walk has happened: the first index call walks the disk.
    pub fn new() -> (r: Throttle)
        ensures
            r.last_full_scan is None,
    {
        Throttle { last_full_scan: None }
    }

    /// Decides whether an index call at `now` walks the disk, and records
    /// the walk when it covers the whole document root. The decision and the
    /// record are one step, so two concurrent calls cannot both start a full
    /// walk for the same window.
    pub fn begin(&mut self, now: u64, whole_root: bool) -> (r: bool)
        ensures
            r == scan_due(old(self).last_full_scan, now),
            final(self).last_full_scan == after_begin(old(self).last_full_scan, now, whole_root),
    {
        let due = match self.last_full_scan {
            None => true,
            Some(t) => now > t && now - t > FULL_SCAN_INTERVAL,
        };
        if due && whole_root {
            self.last_full_scan = Some(now);
        }
        due
    }

    /// Forgets the last walk, so that the next index call walks the disk.
    pub fn force_rescan(&mut self)
        ensures
            final(self).last_full_scan is None,
            scan_due(final(self).last_full_scan, 0),
    {
        self.last_full_scan = None;
    }
}

/// Two index calls of the whole document root that lie within one interval
/// walk the disk at most once between them; a third call, more than an
/// interval after the second, walks it again.
pub proof fn lemma_throttle_walks(last: Option<u64>, t1: u64, t2: u64, t3: u64)
    requires
        last matches Some(t) ==> t <= t1,
        t1 <= t2,
        t2 - t1 <= FULL_SCAN_INTERVAL,
        t3 > t2,
        t3 - t2 > FULL_SCAN_INTERVAL,
    ensures
        !(scan_due(last, t1) && scan_due(after_begin(last, t1, true), t2)),
        scan_due(after_begin(after_begin(last, t1, true), t2, true), t3),
{
}

/// The index of the last entry of `s` whose path is `p`, or -1 when none is.
pub open spec fn position_of(s: Seq<Entry>, p: Seq<char>) -> int
    decreases s.len(),
{
    if s.len() == 0 {
        -1
    } else if s.last().0@ == p {
        s.len() - 1
    } else {
        position_of(s.drop_last(), p)
    }
}

/// `e` stored in `s`: in place of the entry with the same path, or added at
/// the end when there is none.
pub open spec fn upsert(s: Seq<Entry>, e: Entry) -> Seq<Entry> {
    let k = position_of(s, e.0@);
    if k >= 0 {
        s.update(k, e)
    } else {
        s.push(e)
    }
}

/// `out` with the entries of `child` whose documents are not hidden stored
/// into it one after another; a later entry for a path replaces an earlier one.
pub open spec fn merged(out: Seq<Entry>, child: Seq<Entry>) -> Seq<Entry>
    decreases child.len(),
{
    if child.len() == 0 {
        out
    } else {
        let m = merged(out, child.drop_last());
        if child.last().1.hidden {
            m
        } else {
            upsert(m, child.last())
        }
    }
}

/// No entry of `s` is of a hidden document.
pub open spec fn none_hidden(s: Seq<Entry>) -> bool {
    forall|i: int| 0 <= i < s.len() ==> !(#[trigger] s[i]).1.hidden
}

proof fn lemma_position_at(s: Seq<Entry>, p: Seq<char>, j: int)
    requires
        0 <= j <= s.len(),
        forall|k: int| j <= k < s.len() ==> (#[trigger] s[k]).0@ != p,
        j == 0 || s[j - 1].0@ == p,
    ensures
        position_of(s, p) == j - 1,
    decreases s.len(),
{
    if s.len() > 0 && s.last().0@ != p {
        let q = s.drop_last();
        assert forall|k: int| j <= k < q.len() implies (#[trigger] q[k]).0@ != p by {
            assert(q[k] == s[k]);
        }
        lemma_position_at(q, p, j);
    }
}

proof fn lemma_position_range(s: Seq<Entry>, p: Seq<char>)
    ensures
        -1 <= position_of(s, p) < s.len(),
    decreases s.len(),
{
    if s.len() > 0 {
        lemma_position_range(s.drop_last(), p);
    }
}

/// Stores `e` into `out`, in place of the entry with the same path if there
/// is one.
fn upsert_entry(out: &mut Vec<Entry>, e: Entry)
    ensures
        final(out)@ == upsert(old(out)@, e),
{
    let mut j: usize = out.len();
    while j > 0 && !str_eq(out[j - 1].0.as_str(), e.0.as_str())
        invariant
            j <= out@.len(),
            forall|k: int| j <= k < out@.len() ==> (#[trigger] out@[k]).0@ != e.0@,
        decreases j,
    {
        j = j - 1;
    }
    proof {
        lemma_position_at(out@, e.0@, j as int);
    }
    if j > 0 {
        out.set(j - 1, e);
    } else {
        out.push(e);
    }
}

/// Adds the results of a subdirectory to the results of its parent: each
/// entry whose document is not hidden is stored, in place of an entry with
/// the same path.
pub fn merge_visible(out: &mut Vec<Entry>, child: Vec<Entry>)
    ensures
        final(out)@ == merged(old(out)@, child@),
{
    let ghost orig = child@;
    let ghost start = out@;
    let mut rest = child;
    assert(orig.len() == rest.len());
    let mut i: usize = 0;
    while rest.len() > 0
        invariant
            i <= orig.len(),
            orig.len() <= usize::MAX,
            rest@ == orig.subrange(i as int, orig.len() as int),
            out@ == merged(start, orig.subrange(0, i as int)),
        decreases rest@.len(),
    {
        let e = rest.remove(0);
        assert(orig.subrange(0, i + 1).drop_last() =~= orig.subrange(0, i as int));
        assert(rest@ =~= orig.subrange(i + 1, orig.len() as int));
        if !e.1.hidden {
            upsert_entry(out, e);
        }
        i = i + 1;
    }
    assert(orig.subrange(0, i as int) =~= orig);
}

/// Hidden documents never enter an index: merging the results of any
/// subdirectory into results free of hidden documents leaves them free of
/// hidden documents, at every level of the walk.
pub proof fn lemma_merge_keeps_hidden_out(out: Seq<Entry>, child: Seq<Entry>)
    requires
        none_hidden(out),
    ensures
        none_hidden(merged(out, child)),
    decreases child.len(),
{
    if child.len() > 0 {
        lemma_merge_keeps_hidden_out(out, child.drop_last());
        let m = merged(out, child.drop_last());
        if !child.last().1.hidden {
            lemma_position_range(m, child.last().0@);
        }
    }
}

/// No two entries of `s` share a path.
pub open spec fn unique_paths(s: Seq<Entry>) -> bool {
    forall|i: int, j: int| 0 <= i < j < s.len() ==> (#[trigger] s[i]).0@ != (#[trigger] s[j]).0@
}

proof fn lemma_position_found(s: Seq<Entry>, p: Seq<char>)
    ensures
        position_of(s, p) >= 0 ==> s[position_of(s, p)].0@ == p,
        position_of(s, p) < 0 ==> forall|i: int| 0 <= i < s.len() ==> (#[trigger] s[i]).0@ != p,
    decreases s.len(),
{
    lemma_position_range(s, p);
    if s.len() > 0 {
        let q = s.drop_last();
        lemma_position_found(q, p);
        lemma_position_range(q, p);
        if s.last().0@ != p {
            if position_of(q, p) >= 0 {
                assert(s[position_of(q, p)] == q[position_of(q, p)]);
            }
            assert forall|i: int| 0 <= i < s.len() && position_of(s, p) < 0 implies (#[trigger] s[
                i
            ]).0@ != p by {
                if i < q.len() {
                    assert(s[i] == q[i]);
                }
            }
        }
    }
}

/// The index stays a mapping: merging the results of a subdirectory into
/// results whose paths are distinct leaves the paths distinct.
pub proof fn lemma_merge_keeps_paths_unique(out: Seq<Entry>, child: Seq<Entry>)
    requires
        unique_paths(out),
    ensures
        unique_paths(merged(out, child)),
    decreases child.len(),
{
    if child.len() > 0 {
        lemma_merge_keeps_paths_unique(out, child.drop_last());
        let m = merged(out, child.drop_last());
        let e = child.last();
        if !e.1.hidden {
            lemma_position_range(m, e.0@);
            lemma_position_found(m, e.0@);
            let r = upsert(m, e);
            let k = position_of(m, e.0@);
            assert forall|i: int, j: int| 0 <= i < j < r.len() implies (#[trigger] r[i]).0@ != (
            #[trigger] r[j]).0@ by {
                if k < 0 && j == m.len() {
                    assert(r[i] == m[i]);
                }
            }
        }
    }
}

} // verus!
