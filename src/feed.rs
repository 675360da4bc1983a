use crate::date::{date_le, lemma_date_le_total, lemma_date_le_trans, Date};
use crate::search::Entry;
use crate::text::{seq_le, str_eq, str_le};
use vstd::prelude::*;

verus! {

/// The entries of `es` whose documents may appear in the feed, in order.
pub open spec fn feed_worthy(es: Seq<Entry>) -> Seq<Entry>
    decreases es.len(),
{
    if es.len() == 0 {
        es
    } else if es.last().1.exclude_from_rss {
        feed_worthy(es.drop_last())
    } else {
        feed_worthy(es.drop_last()).push(es.last())
    }
}

/// Leaves out the documents that ask to stay out of the feed.
pub fn feed_entries(entries: Vec<Entry>) -> (r: Vec<Entry>)
    ensures
        r@ == feed_worthy(entries@),
{
    let ghost orig = entries@;
    let mut rest = entries;
    assert(orig.len() == rest.len());
    let mut out: Vec<Entry> = Vec::new();
    let mut i: usize = 0;
    while rest.len() > 0
        invariant
            i <= orig.len(),
            orig.len() <= usize::MAX,
            rest@ == orig.subrange(i as int, orig.len() as int),
            out@ == feed_worthy(orig.subrange(0, i as int)),
        decreases rest@.len(),
    {
        let e = rest.remove(0);
        assert(orig.subrange(0, i + 1).drop_last() =~= orig.subrange(0, i as int));
        assert(rest@ =~= orig.subrange(i + 1, orig.len() as int));
        if !e.1.exclude_from_rss {
            out.push(e);
        }
        i = i + 1;
    }
    assert(orig.subrange(0, i as int) =~= orig);
    out
}

/// The latest of the dates; the unset date when there are none.
pub open spec fn latest(s: Seq<Date>) -> Date
    decreases s.len(),
{
    if s.len() == 0 {
        Date::spec_unset()
    } else if s.len() == 1 {
        s[0]
    } else if date_le(latest(s.drop_last()), s.last()) {
        s.last()
    } else {
        latest(s.drop_last())
    }
}

/// The latest date is one of the dates, and none of them lies after it.
pub proof fn lemma_latest_is_max(s: Seq<Date>)
    requires
        s.len() > 0,
    ensures
        s.contains(latest(s)),
        forall|i: int| 0 <= i < s.len() ==> date_le(#[trigger] s[i], latest(s)),
    decreases s.len(),
{
    if s.len() > 1 {
        let p = s.drop_last();
        lemma_latest_is_max(p);
        let m = latest(p);
        lemma_date_le_total(m, s.last());
        assert forall|i: int| 0 <= i < s.len() implies date_le(#[trigger] s[i], latest(s)) by {
            if i < s.len() - 1 {
                assert(s[i] == p[i]);
                if date_le(m, s.last()) {
                    lemma_date_le_trans(s[i], m, s.last());
                }
            }
        }
        if !date_le(m, s.last()) {
            let k = choose|k: int| 0 <= k < p.len() && p[k] == m;
            assert(s[k] == m);
        } else {
            assert(s[s.len() - 1] == s.last());
        }
    } else {
        assert(s[0] == latest(s));
    }
}

/// The latest of the dates, or the unset date when there are none.
pub fn latest_date(dates: &Vec<Date>) -> (r: Date)
    ensures
        r == latest(dates@),
{
    if dates.len() == 0 {
        return Date::unset();
    }
    let mut best = dates[0];
    let mut i: usize = 1;
    assert(dates@.subrange(0, 1) =~= seq![dates@[0]]);
    while i < dates.len()
        invariant
            1 <= i <= dates@.len(),
            best == latest(dates@.subrange(0, i as int)),
        decreases dates@.len() - i,
    {
        let ghost pre = dates@.subrange(0, i + 1);
        assert(pre.drop_last() =~= dates@.subrange(0, i as int));
        if best.le(&dates[i]) {
            best = dates[i];
        }
        i = i + 1;
    }
    assert(dates@.subrange(0, i as int) =~= dates@);
    best
}

/// Every tag of every entry, in order; a tag listed twice counts twice.
pub open spec fn flat_tags(es: Seq<Entry>) -> Seq<Seq<char>>
    decreases es.len(),
{
    if es.len() == 0 {
        Seq::empty()
    } else {
        flat_tags(es.drop_last()) + es.last().1.tags@.map_values(|t: String| t@)
    }
}

/// One more occurrence of a tag, held at the largest count there is room for.
pub open spec fn bump(c: usize) -> usize {
    if c < usize::MAX {
        (c + 1) as usize
    } else {
        c
    }
}

/// The tally `acc`, kept in ascending tag order, with one more occurrence of `t`.
pub open spec fn tally_one(acc: Seq<(Seq<char>, usize)>, t: Seq<char>) -> Seq<(Seq<char>, usize)>
    decreases acc.len(),
{
    if acc.len() == 0 {
        seq![(t, 1usize)]
    } else if seq_le(acc.last().0, t) {
        if acc.last().0 == t {
            acc.update(acc.len() - 1, (t, bump(acc.last().1)))
        } else {
            acc.push((t, 1usize))
        }
    } else {
        tally_one(acc.drop_last(), t).push(acc.last())
    }
}

/// Each distinct tag of `ts` with the number of its occurrences, in ascending
/// tag order.
pub open spec fn tally(ts: Seq<Seq<char>>) -> Seq<(Seq<char>, usize)>
    decreases ts.len(),
{
    if ts.len() == 0 {
        Seq::empty()
    } else {
        tally_one(tally(ts.drop_last()), ts.last())
    }
}

/// A tally as tags and counts.
pub open spec fn tally_view(v: Seq<(String, usize)>) -> Seq<(Seq<char>, usize)> {
    v.map_values(|p: (String, usize)| (p.0@, p.1))
}

proof fn lemma_tally_at(acc: Seq<(Seq<char>, usize)>, t: Seq<char>, j: int)
    requires
        0 <= j <= acc.len(),
        forall|k: int| j <= k < acc.len() ==> !seq_le((#[trigger] acc[k]).0, t),
        j == 0 || seq_le(acc[j - 1].0, t),
    ensures
        tally_one(acc, t) == if j > 0 && acc[j - 1].0 == t {
            acc.update(j - 1, (t, bump(acc[j - 1].1)))
        } else {
            acc.insert(j, (t, 1usize))
        },
    decreases acc.len(),
{
    if acc.len() == 0 {
        assert(acc.insert(j, (t, 1usize)) =~= seq![(t, 1usize)]);
    } else if seq_le(acc.last().0, t) {
        assert(j == acc.len());
        assert(acc.insert(j, (t, 1usize)) =~= acc.push((t, 1usize)));
    } else {
        let q = acc.drop_last();
        assert forall|k: int| j <= k < q.len() implies !seq_le((#[trigger] q[k]).0, t) by {
            assert(q[k] == acc[k]);
        }
        lemma_tally_at(q, t, j);
        if j > 0 && acc[j - 1].0 == t {
            assert(acc.update(j - 1, (t, bump(acc[j - 1].1))) =~= q.update(
                j - 1,
                (t, bump(q[j - 1].1)),
            ).push(acc.last()));
        } else {
            assert(acc.insert(j, (t, 1usize)) =~= q.insert(j, (t, 1usize)).push(acc.last()));
        }
    }
}

/// Counts one more occurrence of `t` in the tally `acc`.
fn tally_tag(acc: &mut Vec<(String, usize)>, t: &String)
    ensures
        tally_view(final(acc)@) == tally_one(tally_view(old(acc)@), t@),
{
    let ghost v = tally_view(acc@);
    let mut j: usize = acc.len();
    while j > 0 && !str_le(acc[j - 1].0.as_str(), t.as_str())
        invariant
            j <= acc@.len(),
            v == tally_view(acc@),
            forall|k: int| j <= k < acc@.len() ==> !seq_le((#[trigger] acc@[k]).0@, t@),
        decreases j,
    {
        j = j - 1;
    }
    proof {
        assert forall|k: int| j <= k < v.len() implies !seq_le((#[trigger] v[k]).0, t@) by {
            assert(v[k].0 == acc@[k].0@);
        }
        lemma_tally_at(v, t@, j as int);
    }
    if j > 0 && str_eq(acc[j - 1].0.as_str(), t.as_str()) {
        let c = acc[j - 1].1;
        let n = if c < usize::MAX {
            c + 1
        } else {
            c
        };
        acc.set(j - 1, (t.clone(), n));
        assert(tally_view(acc@) =~= v.update(j - 1, (t@, bump(v[j - 1].1))));
    } else {
        acc.insert(j, (t.clone(), 1));
        assert(tally_view(acc@) =~= v.insert(j as int, (t@, 1usize)));
    }
}

/// Each distinct tag of the entries with the number of its occurrences, in
/// ascending tag order.
pub fn tag_counts(entries: &Vec<Entry>) -> (r: Vec<(String, usize)>)
    ensures
        tally_view(r@) == tally(flat_tags(entries@)),
{
    let mut acc: Vec<(String, usize)> = Vec::new();
    let mut i: usize = 0;
    assert(tally_view(acc@) =~= Seq::<(Seq<char>, usize)>::empty());
    while i < entries.len()
        invariant
            i <= entries@.len(),
            tally_view(acc@) == tally(flat_tags(entries@.subrange(0, i as int))),
        decreases entries@.len() - i,
    {
        let tags = &entries[i].1.tags;
        let ghost before = flat_tags(entries@.subrange(0, i as int));
        let ghost mapped = tags@.map_values(|t: String| t@);
        let mut k: usize = 0;
        assert(before + mapped.subrange(0, 0) =~= before);
        while k < tags.len()
            invariant
                i < entries@.len(),
                tags == entries@[i as int].1.tags,
                mapped == tags@.map_values(|t: String| t@),
                k <= tags@.len(),
                tally_view(acc@) == tally(before + mapped.subrange(0, k as int)),
            decreases tags@.len() - k,
        {
            let ghost pre = before + mapped.subrange(0, k as int);
            assert((before + mapped.subrange(0, k + 1)).drop_last() =~= pre);
            assert((before + mapped.subrange(0, k + 1)).last() == tags@[k as int]@);
            tally_tag(&mut acc, &tags[k]);
            k = k + 1;
        }
        assert(entries@.subrange(0, i + 1).drop_last() =~= entries@.subrange(0, i as int));
        assert(mapped.subrange(0, k as int) =~= mapped);
        i = i + 1;
    }
    assert(entries@.subrange(0, i as int) =~= entries@);
    acc
}

} // verus!
