//! Folding freshly observed chapters into a persisted chapter list.
use vstd::prelude::*;
use crate::chapter::{ChapterMetadata, ChapterRecord, number_key};

verus! {

pub open spec fn records(v: Seq<ChapterMetadata>) -> Seq<ChapterRecord> {
    v.map_values(|c: ChapterMetadata| c@)
}

/// The records of `s` that do not occur in `removed`, in order.
pub open spec fn without(s: Seq<ChapterRecord>, removed: Seq<ChapterRecord>) -> Seq<ChapterRecord>
    decreases s.len(),
{
    if s.len() == 0 {
        s
    } else {
        let w = without(s.drop_last(), removed);
        if removed.contains(s.last()) {
            w
        } else {
            w.push(s.last())
        }
    }
}

/// The first occurrence of each record of `s`, in order.
pub open spec fn distinct(s: Seq<ChapterRecord>) -> Seq<ChapterRecord>
    decreases s.len(),
{
    if s.len() == 0 {
        s
    } else {
        let d = distinct(s.drop_last());
        if d.contains(s.last()) {
            d
        } else {
            d.push(s.last())
        }
    }
}

/// Puts `x` into `s` after every record whose number is not larger.
pub open spec fn insert_by_number(s: Seq<ChapterRecord>, x: ChapterRecord) -> Seq<ChapterRecord>
    decreases s.len(),
{
    if s.len() == 0 {
        seq![x]
    } else if number_key(x) < number_key(s[0]) {
        seq![x] + s
    } else {
        seq![s[0]] + insert_by_number(s.drop_first(), x)
    }
}

/// The stable sort of `s` by chapter number: records with equal numbers keep their order.
pub open spec fn sort_by_number(s: Seq<ChapterRecord>) -> Seq<ChapterRecord>
    decreases s.len(),
{
    if s.len() == 0 {
        s
    } else {
        insert_by_number(sort_by_number(s.drop_last()), s.last())
    }
}

/// What reconciliation yields: the existing records not explicitly removed, together
/// with the fresh ones, each record once, sorted by number.
pub open spec fn reconciled(
    existing: Seq<ChapterRecord>,
    fresh: Seq<ChapterRecord>,
    to_remove: Seq<ChapterRecord>,
) -> Seq<ChapterRecord> {
    sort_by_number(distinct(without(existing, to_remove) + fresh))
}

pub open spec fn sorted_by_number(s: Seq<ChapterRecord>) -> bool {
    forall|i: int, j: int| 0 <= i < j < s.len() ==> number_key(s[i]) <= number_key(s[j])
}

proof fn lemma_records_push(v: Seq<ChapterMetadata>, c: ChapterMetadata)
    ensures
        records(v.push(c)) == records(v).push(c@),
{
    assert(records(v.push(c)) =~= records(v).push(c@));
}

proof fn lemma_push_contains(s: Seq<ChapterRecord>, x: ChapterRecord, y: ChapterRecord)
    ensures
        s.push(x).contains(y) <==> (s.contains(y) || y == x),
{
    let t = s.push(x);
    assert(t[s.len() as int] == x);
    if s.contains(y) {
        let i = choose|i: int| 0 <= i < s.len() && s[i] == y;
        assert(t[i] == y);
    }
    if t.contains(y) && y != x {
        let i = choose|i: int| 0 <= i < t.len() && t[i] == y;
        assert(s[i] == y);
    }
}

proof fn lemma_prepend_contains(s: Seq<ChapterRecord>, x: ChapterRecord, y: ChapterRecord)
    ensures
        (seq![x] + s).contains(y) <==> (s.contains(y) || y == x),
{
    let t = seq![x] + s;
    assert(t[0] == x);
    if s.contains(y) {
        let i = choose|i: int| 0 <= i < s.len() && s[i] == y;
        assert(t[i + 1] == y);
    }
    if t.contains(y) && y != x {
        let i = choose|i: int| 0 <= i < t.len() && t[i] == y;
        assert(s[i - 1] == y);
    }
}

proof fn lemma_without_contains(s: Seq<ChapterRecord>, removed: Seq<ChapterRecord>, y: ChapterRecord)
    ensures
        without(s, removed).contains(y) <==> (s.contains(y) && !removed.contains(y)),
    decreases s.len(),
{
    if s.len() > 0 {
        lemma_without_contains(s.drop_last(), removed, y);
        assert(s =~= s.drop_last().push(s.last()));
        lemma_push_contains(s.drop_last(), s.last(), y);
        lemma_push_contains(without(s.drop_last(), removed), s.last(), y);
    }
}

proof fn lemma_without_nothing(s: Seq<ChapterRecord>)
    ensures
        without(s, Seq::empty()) == s,
    decreases s.len(),
{
    if s.len() > 0 {
        lemma_without_nothing(s.drop_last());
        assert(s =~= s.drop_last().push(s.last()));
    }
}

proof fn lemma_distinct_contents(s: Seq<ChapterRecord>, y: ChapterRecord)
    ensures
        distinct(s).contains(y) <==> s.contains(y),
        distinct(s).no_duplicates(),
    decreases s.len(),
{
    if s.len() > 0 {
        let dl = s.drop_last();
        let d = distinct(dl);
        lemma_distinct_contents(dl, y);
        lemma_distinct_contents(dl, s.last());
        assert(s =~= dl.push(s.last()));
        lemma_push_contains(dl, s.last(), y);
        lemma_push_contains(d, s.last(), y);
        if !d.contains(s.last()) {
            let r = d.push(s.last());
            assert forall|i: int, j: int| 0 <= i < r.len() && 0 <= j < r.len() && i != j implies r[i] != r[j] by {
                if i < d.len() && j < d.len() {
                    assert(r[i] == d[i] && r[j] == d[j]);
                } else if i < d.len() {
                    assert(r[i] == d[i]);
                } else {
                    assert(r[j] == d[j]);
                }
            }
        }
    }
}

proof fn lemma_distinct_of_distinct(s: Seq<ChapterRecord>)
    requires
        s.no_duplicates(),
    ensures
        distinct(s) == s,
    decreases s.len(),
{
    if s.len() > 0 {
        let dl = s.drop_last();
        assert(dl.no_duplicates());
        lemma_distinct_of_distinct(dl);
        if dl.contains(s.last()) {
            let i = choose|i: int| 0 <= i < dl.len() && dl[i] == s.last();
            assert(s[i] == s[s.len() - 1]);
        }
        assert(s =~= dl.push(s.last()));
    }
}

proof fn lemma_insert_contents(s: Seq<ChapterRecord>, x: ChapterRecord, y: ChapterRecord)
    ensures
        insert_by_number(s, x).contains(y) <==> (y == x || s.contains(y)),
        insert_by_number(s, x).len() == s.len() + 1,
    decreases s.len(),
{
    if s.len() == 0 {
        lemma_prepend_contains(s, x, y);
        assert(seq![x] + s =~= seq![x]);
    } else if number_key(x) < number_key(s[0]) {
        lemma_prepend_contains(s, x, y);
    } else {
        let t = s.drop_first();
        lemma_insert_contents(t, x, y);
        lemma_prepend_contains(insert_by_number(t, x), s[0], y);
        lemma_prepend_contains(t, s[0], y);
        assert(seq![s[0]] + t =~= s);
    }
}

proof fn lemma_insert_sorted(s: Seq<ChapterRecord>, x: ChapterRecord)
    requires
        sorted_by_number(s),
    ensures
        sorted_by_number(insert_by_number(s, x)),
    decreases s.len(),
{
    if s.len() > 0 && number_key(x) >= number_key(s[0]) {
        let t = s.drop_first();
        lemma_insert_sorted(t, x);
        let it = insert_by_number(t, x);
        let r = seq![s[0]] + it;
        assert forall|i: int, j: int| 0 <= i < j < r.len() implies number_key(r[i]) <= number_key(r[j]) by {
            if i == 0 {
                lemma_insert_contents(t, x, r[j]);
                assert(it[j - 1] == r[j]);
                assert(it.contains(r[j]));
                if r[j] != x {
                    let k = choose|k: int| 0 <= k < t.len() && t[k] == r[j];
                    assert(s[k + 1] == r[j]);
                }
            } else {
                assert(r[i] == it[i - 1] && r[j] == it[j - 1]);
            }
        }
    }
}

proof fn lemma_insert_no_duplicates(s: Seq<ChapterRecord>, x: ChapterRecord)
    requires
        s.no_duplicates(),
        !s.contains(x),
    ensures
        insert_by_number(s, x).no_duplicates(),
    decreases s.len(),
{
    if s.len() > 0 {
        if number_key(x) < number_key(s[0]) {
            let r = seq![x] + s;
            assert forall|i: int, j: int| 0 <= i < r.len() && 0 <= j < r.len() && i != j implies r[i] != r[j] by {
                if i == 0 {
                    assert(s[j - 1] == r[j]);
                } else if j == 0 {
                    assert(s[i - 1] == r[i]);
                } else {
                    assert(s[i - 1] == r[i] && s[j - 1] == r[j]);
                }
            }
        } else {
            let t = s.drop_first();
            assert(t.no_duplicates());
            if t.contains(x) {
                let k = choose|k: int| 0 <= k < t.len() && t[k] == x;
                assert(s[k + 1] == x);
            }
            lemma_insert_no_duplicates(t, x);
            let it = insert_by_number(t, x);
            let r = seq![s[0]] + it;
            lemma_insert_contents(t, x, s[0]);
            if t.contains(s[0]) {
                let k = choose|k: int| 0 <= k < t.len() && t[k] == s[0];
                assert(s[k + 1] == s[0]);
            }
            assert forall|i: int, j: int| 0 <= i < r.len() && 0 <= j < r.len() && i != j implies r[i] != r[j] by {
                if i == 0 {
                    assert(it[j - 1] == r[j]);
                } else if j == 0 {
                    assert(it[i - 1] == r[i]);
                } else {
                    assert(it[i - 1] == r[i] && it[j - 1] == r[j]);
                }
            }
        }
    }
}

proof fn lemma_insert_last(s: Seq<ChapterRecord>, x: ChapterRecord)
    requires
        forall|i: int| 0 <= i < s.len() ==> number_key(#[trigger] s[i]) <= number_key(x),
    ensures
        insert_by_number(s, x) == s.push(x),
    decreases s.len(),
{
    if s.len() > 0 {
        let t = s.drop_first();
        assert forall|i: int| 0 <= i < t.len() implies number_key(#[trigger] t[i]) <= number_key(x) by {
            assert(t[i] == s[i + 1]);
        }
        lemma_insert_last(t, x);
        assert(seq![s[0]] + t.push(x) =~= s.push(x));
    }
}

/// Inserting at `p`, the first position holding a larger number, is what
/// `insert_by_number` does.
proof fn lemma_insert_at(s: Seq<ChapterRecord>, x: ChapterRecord, p: int)
    requires
        0 <= p <= s.len(),
        forall|i: int| 0 <= i < p ==> number_key(#[trigger] s[i]) <= number_key(x),
        p < s.len() ==> number_key(x) < number_key(s[p]),
    ensures
        insert_by_number(s, x) == s.insert(p, x),
    decreases s.len(),
{
    if s.len() == 0 {
        assert(s.insert(p, x) =~= seq![x]);
    } else if p == 0 {
        assert(s.insert(p, x) =~= seq![x] + s);
    } else {
        let t = s.drop_first();
        assert(number_key(s[0]) <= number_key(x));
        assert forall|i: int| 0 <= i < p - 1 implies number_key(#[trigger] t[i]) <= number_key(x) by {
            assert(t[i] == s[i + 1]);
        }
        lemma_insert_at(t, x, p - 1);
        assert(seq![s[0]] + t.insert(p - 1, x) =~= s.insert(p, x));
    }
}

pub proof fn lemma_sort_contents(s: Seq<ChapterRecord>, y: ChapterRecord)
    ensures
        sort_by_number(s).contains(y) <==> s.contains(y),
        sort_by_number(s).len() == s.len(),
    decreases s.len(),
{
    if s.len() > 0 {
        let dl = s.drop_last();
        lemma_sort_contents(dl, y);
        lemma_insert_contents(sort_by_number(dl), s.last(), y);
        assert(s =~= dl.push(s.last()));
        if s.contains(y) && y != s.last() {
            let i = choose|i: int| 0 <= i < s.len() && s[i] == y;
            assert(dl[i] == y);
        }
    }
}

proof fn lemma_sort_sorted(s: Seq<ChapterRecord>)
    ensures
        sorted_by_number(sort_by_number(s)),
    decreases s.len(),
{
    if s.len() > 0 {
        lemma_sort_sorted(s.drop_last());
        lemma_insert_sorted(sort_by_number(s.drop_last()), s.last());
    }
}

proof fn lemma_sort_no_duplicates(s: Seq<ChapterRecord>)
    requires
        s.no_duplicates(),
    ensures
        sort_by_number(s).no_duplicates(),
    decreases s.len(),
{
    if s.len() > 0 {
        let dl = s.drop_last();
        assert(dl.no_duplicates());
        lemma_sort_no_duplicates(dl);
        lemma_sort_contents(dl, s.last());
        if dl.contains(s.last()) {
            let i = choose|i: int| 0 <= i < dl.len() && dl[i] == s.last();
            assert(s[i] == s[s.len() - 1]);
        }
        lemma_insert_no_duplicates(sort_by_number(dl), s.last());
    }
}

proof fn lemma_sort_of_sorted(s: Seq<ChapterRecord>)
    requires
        sorted_by_number(s),
    ensures
        sort_by_number(s) == s,
    decreases s.len(),
{
    if s.len() > 0 {
        let dl = s.drop_last();
        assert(sorted_by_number(dl)) by {
            assert forall|i: int, j: int| 0 <= i < j < dl.len() implies number_key(dl[i]) <= number_key(dl[j]) by {
                assert(dl[i] == s[i] && dl[j] == s[j]);
            }
        }
        lemma_sort_of_sorted(dl);
        assert forall|i: int| 0 <= i < dl.len() implies number_key(#[trigger] dl[i]) <= number_key(s.last()) by {
            assert(dl[i] == s[i]);
        }
        lemma_insert_last(dl, s.last());
        assert(s =~= dl.push(s.last()));
    }
}

/// Every record that reconciliation yields is a surviving existing record or a fresh one,
/// and each of those is yielded exactly once.
pub proof fn lemma_reconciled_contents(
    existing: Seq<ChapterRecord>,
    fresh: Seq<ChapterRecord>,
    to_remove: Seq<ChapterRecord>,
    y: ChapterRecord,
)
    ensures
        reconciled(existing, fresh, to_remove).contains(y) <==> ((existing.contains(y)
            && !to_remove.contains(y)) || fresh.contains(y)),
        reconciled(existing, fresh, to_remove).no_duplicates(),
{
    let w = without(existing, to_remove);
    lemma_without_contains(existing, to_remove, y);
    lemma_distinct_contents(w + fresh, y);
    lemma_sort_contents(distinct(w + fresh), y);
    lemma_sort_no_duplicates(distinct(w + fresh));
    if (w + fresh).contains(y) {
        let i = choose|i: int| 0 <= i < (w + fresh).len() && (w + fresh)[i] == y;
        if i < w.len() {
            assert(w[i] == y);
        } else {
            assert(fresh[i - w.len()] == y);
        }
    }
    if w.contains(y) {
        let i = choose|i: int| 0 <= i < w.len() && w[i] == y;
        assert((w + fresh)[i] == y);
    }
    if fresh.contains(y) {
        let i = choose|i: int| 0 <= i < fresh.len() && fresh[i] == y;
        assert((w + fresh)[w.len() + i] == y);
    }
}

/// Reconciling a reconciled list again, with nothing fresh and nothing to remove,
/// changes nothing.
pub proof fn lemma_reconcile_idempotent(
    existing: Seq<ChapterRecord>,
    fresh: Seq<ChapterRecord>,
    to_remove: Seq<ChapterRecord>,
)
    ensures
        reconciled(reconciled(existing, fresh, to_remove), Seq::empty(), Seq::empty())
            == reconciled(existing, fresh, to_remove),
{
    let r = reconciled(existing, fresh, to_remove);
    let y = arbitrary();
    lemma_reconciled_contents(existing, fresh, to_remove, y);
    lemma_sort_sorted(distinct(without(existing, to_remove) + fresh));
    lemma_without_nothing(r);
    assert(r + Seq::<ChapterRecord>::empty() =~= r);
    lemma_distinct_of_distinct(r);
    lemma_sort_of_sorted(r);
}

/// A record listed for removal comes out of reconciliation only when it is also fresh.
pub proof fn lemma_reconcile_honours_removal(
    existing: Seq<ChapterRecord>,
    fresh: Seq<ChapterRecord>,
    to_remove: Seq<ChapterRecord>,
    y: ChapterRecord,
)
    requires
        to_remove.contains(y),
        reconciled(existing, fresh, to_remove).contains(y),
    ensures
        fresh.contains(y),
{
    lemma_reconciled_contents(existing, fresh, to_remove, y);
}

/// Reconciliation yields its records in ascending chapter number, a number that is
/// not an unsigned integer counting as 0.
pub proof fn lemma_reconcile_sorted(
    existing: Seq<ChapterRecord>,
    fresh: Seq<ChapterRecord>,
    to_remove: Seq<ChapterRecord>,
)
    ensures
        sorted_by_number(reconciled(existing, fresh, to_remove)),
{
    lemma_sort_sorted(distinct(without(existing, to_remove) + fresh));
}

/// Whether `c` occurs in `v`, comparing all three fields.
pub fn contains_record(v: &Vec<ChapterMetadata>, c: &ChapterMetadata) -> (r: bool)
    ensures
        r == records(v@).contains(c@),
{
    let mut i: usize = 0;
    while i < v.len()
        invariant
            0 <= i <= v.len(),
            forall|k: int| 0 <= k < i ==> v@[k]@ != c@,
        decreases v.len() - i,
    {
        if v[i].same_as(c) {
            assert(records(v@)[i as int] == c@);
            return true;
        }
        i = i + 1;
    }
    proof {
        if records(v@).contains(c@) {
            let k = choose|k: int| 0 <= k < records(v@).len() && records(v@)[k] == c@;
            assert(v@[k]@ == c@);
        }
    }
    false
}

/// Folds fresh chapters into an entry's persisted list: drops the existing records
/// listed in `to_remove`, adds the fresh ones, keeps each record once and sorts the
/// result by chapter number, records with equal numbers keeping their order.
pub fn reconcile(
    existing: &Vec<ChapterMetadata>,
    fresh: &Vec<ChapterMetadata>,
    to_remove: &Vec<ChapterMetadata>,
) -> (r: Vec<ChapterMetadata>)
    ensures
        records(r@) == reconciled(records(existing@), records(fresh@), records(to_remove@)),
{
    let ghost e = records(existing@);
    let ghost f = records(fresh@);
    let ghost rm = records(to_remove@);
    let mut combined: Vec<ChapterMetadata> = Vec::new();
    let mut i: usize = 0;
    while i < existing.len()
        invariant
            i <= existing.len(),
            e == records(existing@),
            rm == records(to_remove@),
            records(combined@) == without(e.take(i as int), rm),
        decreases existing.len() - i,
    {
        let c = &existing[i];
        assert(e.take(i + 1).drop_last() =~= e.take(i as int));
        assert(e.take(i + 1).last() == c@);
        if !contains_record(to_remove, c) {
            let d = c.duplicate();
            proof {
                lemma_records_push(combined@, d);
            }
            combined.push(d);
        }
        i = i + 1;
    }
    assert(e.take(existing.len() as int) =~= e);
    let ghost w = records(combined@);
    let mut j: usize = 0;
    while j < fresh.len()
        invariant
            j <= fresh.len(),
            f == records(fresh@),
            records(combined@) == w + f.take(j as int),
        decreases fresh.len() - j,
    {
        let d = fresh[j].duplicate();
        proof {
            lemma_records_push(combined@, d);
        }
        combined.push(d);
        assert(w + f.take(j + 1) =~= (w + f.take(j as int)).push(d@));
        j = j + 1;
    }
    assert(f.take(fresh.len() as int) =~= f);
    let ghost all = records(combined@);
    let mut unique: Vec<ChapterMetadata> = Vec::new();
    let mut k: usize = 0;
    while k < combined.len()
        invariant
            k <= combined.len(),
            all == records(combined@),
            records(unique@) == distinct(all.take(k as int)),
        decreases combined.len() - k,
    {
        let c = &combined[k];
        assert(all.take(k + 1).drop_last() =~= all.take(k as int));
        assert(all.take(k + 1).last() == c@);
        if !contains_record(&unique, c) {
            let d = c.duplicate();
            proof {
                lemma_records_push(unique@, d);
            }
            unique.push(d);
        }
        k = k + 1;
    }
    assert(all.take(combined.len() as int) =~= all);
    let ghost u = records(unique@);
    let mut out: Vec<ChapterMetadata> = Vec::new();
    let mut n: usize = 0;
    while n < unique.len()
        invariant
            n <= unique.len(),
            u == records(unique@),
            records(out@) == sort_by_number(u.take(n as int)),
        decreases unique.len() - n,
    {
        let x = unique[n].duplicate();
        let kx = x.sort_number();
        let mut p: usize = 0;
        while p < out.len() && out[p].sort_number() <= kx
            invariant
                p <= out.len(),
                kx as nat == number_key(x@),
                forall|q: int| 0 <= q < p ==> number_key(#[trigger] out@[q]@) <= number_key(x@),
            decreases out.len() - p,
        {
            p = p + 1;
        }
        let ghost before = records(out@);
        proof {
            assert forall|q: int| 0 <= q < p implies number_key(#[trigger] before[q]) <= number_key(x@) by {
                assert(before[q] == out@[q]@);
            }
            if p < out.len() {
                assert(before[p as int] == out@[p as int]@);
            }
            lemma_insert_at(before, x@, p as int);
            assert(u.take(n + 1).drop_last() =~= u.take(n as int));
            assert(u.take(n + 1).last() == x@);
        }
        out.insert(p, x);
        assert(records(out@) =~= before.insert(p as int, x@));
        n = n + 1;
    }
    assert(u.take(unique.len() as int) =~= u);
    out
}

} // verus!
