//! The persisted catalog: one entry per title, the maintenance pass over all entries,
//! and recording a freshly resolved title.
use vstd::prelude::*;
use crate::chapter::{ChapterMetadata, ChapterRecord};
use crate::reconcile::{lemma_reconcile_idempotent, records, reconciled, reconcile};
use crate::text::{TextMap, copy_texts, index_set, same_text, texts};

verus! {

/// One title's record in the catalog.
pub struct MangaEntry {
    pub id: String,
    pub name: String,
    /// The directory holding the title's downloaded content.
    pub mwd: String,
    pub cover: bool,
    /// When the title's feed was fetched, oldest first.
    pub date: Vec<String>,
    pub available_languages: Vec<String>,
    pub current_language: String,
    pub chapters: Vec<ChapterMetadata>,
}

pub ghost struct EntryModel {
    pub id: Seq<char>,
    pub name: Seq<char>,
    pub mwd: Seq<char>,
    pub cover: bool,
    pub date: Seq<Seq<char>>,
    pub available_languages: Seq<Seq<char>>,
    pub current_language: Seq<char>,
    pub chapters: Seq<ChapterRecord>,
}

impl View for MangaEntry {
    type V = EntryModel;

    open spec fn view(&self) -> EntryModel {
        EntryModel {
            id: self.id@,
            name: self.name@,
            mwd: self.mwd@,
            cover: self.cover,
            date: texts(self.date@),
            available_languages: texts(self.available_languages@),
            current_language: self.current_language@,
            chapters: records(self.chapters@),
        }
    }
}

pub open spec fn entries_model(v: Seq<MangaEntry>) -> Seq<EntryModel> {
    v.map_values(|e: MangaEntry| e@)
}

/// The whole persisted document.
pub struct Catalog {
    pub version: String,
    pub entries: Vec<MangaEntry>,
}

/// Records the update time of every chapter of `chapters`, in order.
pub open spec fn index_merge(s: Seq<(Seq<char>, Seq<char>)>, chapters: Seq<ChapterRecord>) -> Seq<
    (Seq<char>, Seq<char>),
>
    decreases chapters.len(),
{
    if chapters.len() == 0 {
        s
    } else {
        let c = chapters.last();
        index_set(index_merge(s, chapters.drop_last()), c.number, c.updated_at)
    }
}

/// Records the update time of each of `chapters` in `dates`, in order.
pub fn merge_dates(dates: &mut TextMap, chapters: &Vec<ChapterMetadata>)
    requires
        old(dates).wf(),
    ensures
        final(dates).wf(),
        final(dates)@ == index_merge(old(dates)@, records(chapters@)),
{
    let ghost s = dates@;
    let ghost cs = records(chapters@);
    let mut i: usize = 0;
    while i < chapters.len()
        invariant
            i <= chapters.len(),
            cs == records(chapters@),
            dates.wf(),
            dates@ == index_merge(s, cs.take(i as int)),
        decreases chapters.len() - i,
    {
        assert(cs.take(i + 1).drop_last() =~= cs.take(i as int));
        assert(cs.take(i + 1).last() == chapters@[i as int]@);
        dates.set(&chapters[i].number, &chapters[i].updated_at);
        i = i + 1;
    }
    assert(cs.take(chapters.len() as int) =~= cs);
}

/// What the maintenance pass observed of one entry outside the catalog.
pub struct EntryCheck {
    /// Whether the entry's directory still exists.
    pub dir_exists: bool,
    /// Whether the title's remote metadata could be fetched this pass.
    pub refreshed: bool,
    /// Whether a cover is on disk, found there or downloaded during this pass.
    pub cover_present: bool,
    /// The chapters observed remotely during this pass.
    pub fresh: Vec<ChapterMetadata>,
    /// Chapters found corrupt or superseded during this pass.
    pub to_remove: Vec<ChapterMetadata>,
}

pub ghost struct CheckModel {
    pub dir_exists: bool,
    pub refreshed: bool,
    pub cover_present: bool,
    pub fresh: Seq<ChapterRecord>,
    pub to_remove: Seq<ChapterRecord>,
}

impl View for EntryCheck {
    type V = CheckModel;

    open spec fn view(&self) -> CheckModel {
        CheckModel {
            dir_exists: self.dir_exists,
            refreshed: self.refreshed,
            cover_present: self.cover_present,
            fresh: records(self.fresh@),
            to_remove: records(self.to_remove@),
        }
    }
}

pub open spec fn checks_model(v: Seq<EntryCheck>) -> Seq<CheckModel> {
    v.map_values(|c: EntryCheck| c@)
}

/// An entry after the pass: its chapters reconciled with what was observed, and, when
/// covers are being updated, its cover flag set to what is on disk.
pub open spec fn checked_entry(e: EntryModel, c: CheckModel, update: bool) -> EntryModel {
    EntryModel {
        chapters: reconciled(e.chapters, c.fresh, c.to_remove),
        cover: if update {
            c.cover_present
        } else {
            e.cover
        },
        ..e
    }
}

/// An entry stays when its directory exists and it still has a chapter or a cover.
pub open spec fn entry_kept(e: EntryModel, c: CheckModel) -> bool {
    c.dir_exists && (reconciled(e.chapters, c.fresh, c.to_remove).len() > 0 || c.cover_present)
}

/// The entries that remain after the pass, updated, in their order.
pub open spec fn maintained(entries: Seq<EntryModel>, checks: Seq<CheckModel>, update: bool) -> Seq<
    EntryModel,
>
    decreases entries.len(),
{
    if entries.len() == 0 {
        entries
    } else {
        let rest = maintained(entries.drop_last(), checks.drop_last(), update);
        let e = entries.last();
        let c = checks[entries.len() - 1];
        if entry_kept(e, c) {
            rest.push(checked_entry(e, c, update))
        } else {
            rest
        }
    }
}

/// The date index after the pass: each entry whose directory exists and whose remote
/// metadata was fetched contributes the update times of its persisted chapters.
pub open spec fn dates_after(
    d: Seq<(Seq<char>, Seq<char>)>,
    entries: Seq<EntryModel>,
    checks: Seq<CheckModel>,
) -> Seq<(Seq<char>, Seq<char>)>
    decreases entries.len(),
{
    if entries.len() == 0 {
        d
    } else {
        let before = dates_after(d, entries.drop_last(), checks.drop_last());
        let c = checks[entries.len() - 1];
        if c.dir_exists && c.refreshed {
            index_merge(before, entries.last().chapters)
        } else {
            before
        }
    }
}

/// Brings one entry up to date with what the pass observed of it, and says whether it
/// stays in the catalog.
pub fn check_entry(entry: &mut MangaEntry, check: &EntryCheck, dates: &mut TextMap, update: bool) -> (keep: bool)
    requires
        old(dates).wf(),
    ensures
        final(dates).wf(),
        keep == entry_kept(old(entry)@, check@),
        check.dir_exists ==> final(entry)@ == checked_entry(old(entry)@, check@, update),
        !check.dir_exists ==> final(entry)@ == old(entry)@,
        final(dates)@ == if check.dir_exists && check.refreshed {
            index_merge(old(dates)@, old(entry)@.chapters)
        } else {
            old(dates)@
        },
{
    if !check.dir_exists {
        return false;
    }
    if check.refreshed {
        merge_dates(dates, &entry.chapters);
    }
    if update {
        entry.cover = check.cover_present;
    }
    let chapters = reconcile(&entry.chapters, &check.fresh, &check.to_remove);
    entry.chapters = chapters;
    entry.chapters.len() > 0 || check.cover_present
}

proof fn lemma_entries_push(v: Seq<MangaEntry>, e: MangaEntry)
    ensures
        entries_model(v.push(e)) == entries_model(v).push(e@),
{
    assert(entries_model(v.push(e)) =~= entries_model(v).push(e@));
}

/// A maintenance pass that observes nothing new (each directory present, no fresh
/// chapters, nothing to remove, covers left as recorded) keeps a catalog whose chapter
/// lists came out of an earlier reconciliation exactly as it is, for any number of
/// entries, provided each entry has a chapter or a cover.
pub proof fn lemma_quiet_pass_keeps_catalog(
    entries: Seq<EntryModel>,
    checks: Seq<CheckModel>,
    earlier: Seq<(Seq<ChapterRecord>, Seq<ChapterRecord>, Seq<ChapterRecord>)>,
)
    requires
        checks.len() == entries.len(),
        earlier.len() == entries.len(),
        forall|i: int|
            0 <= i < entries.len() ==> (#[trigger] entries[i]).chapters == reconciled(
                earlier[i].0,
                earlier[i].1,
                earlier[i].2,
            ),
        forall|i: int|
            0 <= i < checks.len() ==> (#[trigger] checks[i]).dir_exists && checks[i].fresh.len() == 0
                && checks[i].to_remove.len() == 0,
        forall|i: int|
            0 <= i < entries.len() ==> (#[trigger] entries[i]).chapters.len() > 0
                || checks[i].cover_present,
    ensures
        maintained(entries, checks, false) == entries,
    decreases entries.len(),
{
    if entries.len() > 0 {
        let n = entries.len() - 1;
        assert forall|i: int| 0 <= i < n implies (#[trigger] entries.drop_last()[i]).chapters
            == reconciled(earlier.drop_last()[i].0, earlier.drop_last()[i].1, earlier.drop_last()[i].2) by {
            assert(entries.drop_last()[i] == entries[i]);
        }
        assert forall|i: int| 0 <= i < n implies (#[trigger] checks.drop_last()[i]).dir_exists
            && checks.drop_last()[i].fresh.len() == 0 && checks.drop_last()[i].to_remove.len() == 0 by {
            assert(checks.drop_last()[i] == checks[i]);
        }
        assert forall|i: int| 0 <= i < n implies (#[trigger] entries.drop_last()[i]).chapters.len() > 0
            || checks.drop_last()[i].cover_present by {
            assert(entries.drop_last()[i] == entries[i]);
            assert(checks.drop_last()[i] == checks[i]);
        }
        lemma_quiet_pass_keeps_catalog(entries.drop_last(), checks.drop_last(), earlier.drop_last());
        let e = entries.last();
        let c = checks[n];
        assert(e == entries[n]);
        lemma_reconcile_idempotent(earlier[n].0, earlier[n].1, earlier[n].2);
        assert(c.fresh =~= Seq::<ChapterRecord>::empty());
        assert(c.to_remove =~= Seq::<ChapterRecord>::empty());
        assert(checked_entry(e, c, false) == e);
        assert(entries =~= entries.drop_last().push(e));
    }
}

/// An entry whose directory is gone leaves the catalog, and every other entry is
/// processed and kept or pruned exactly as if that entry had never been there: the
/// pass equals the pass over the catalog without it.
pub proof fn lemma_missing_directory_dropped(
    entries: Seq<EntryModel>,
    checks: Seq<CheckModel>,
    update: bool,
    k: int,
)
    requires
        checks.len() == entries.len(),
        0 <= k < entries.len(),
        !checks[k].dir_exists,
    ensures
        maintained(entries, checks, update) == maintained(entries.remove(k), checks.remove(k), update),
    decreases entries.len(),
{
    let n = entries.len() - 1;
    if k == n {
        assert(entries.remove(k) =~= entries.drop_last());
        assert(checks.remove(k) =~= checks.drop_last());
    } else {
        lemma_missing_directory_dropped(entries.drop_last(), checks.drop_last(), update, k);
        let er = entries.remove(k);
        let cr = checks.remove(k);
        assert(er.drop_last() =~= entries.drop_last().remove(k));
        assert(cr.drop_last() =~= checks.drop_last().remove(k));
        assert(er.last() == entries.last());
        assert(cr[er.len() - 1] == checks[n]);
    }
}

impl Catalog {
    /// A catalog with no entries, written by the given version of the tool.
    pub fn new(version: &str) -> (r: Catalog)
        ensures
            r.version@ == version@,
            r.entries@.len() == 0,
    {
        Catalog { version: version.to_owned(), entries: Vec::new() }
    }

    /// The maintenance pass: each entry is checked against what was observed of it,
    /// those whose directory is gone or that are left with neither chapters nor cover
    /// are dropped, and the others are kept, updated, in their order.
    pub fn resolve_check(&mut self, checks: &Vec<EntryCheck>, dates: &mut TextMap, update: bool)
        requires
            old(self).entries.len() == checks.len(),
            old(dates).wf(),
        ensures
            final(dates).wf(),
            final(self).version == old(self).version,
            entries_model(final(self).entries@) == maintained(
                entries_model(old(self).entries@),
                checks_model(checks@),
                update,
            ),
            final(dates)@ == dates_after(
                old(dates)@,
                entries_model(old(self).entries@),
                checks_model(checks@),
            ),
    {
        let ghost es = entries_model(self.entries@);
        let ghost cs = checks_model(checks@);
        let ghost d0 = dates@;
        let mut pending: Vec<MangaEntry> = Vec::new();
        std::mem::swap(&mut pending, &mut self.entries);
        let ghost all = pending@;
        let mut i: usize = 0;
        let n = pending.len();
        while i < n
            invariant
                i <= n,
                n == all.len(),
                n == checks.len(),
                self.version == old(self).version,
                pending@ == all.skip(i as int),
                es == entries_model(all),
                cs == checks_model(checks@),
                dates.wf(),
                entries_model(self.entries@) == maintained(es.take(i as int), cs.take(i as int), update),
                dates@ == dates_after(d0, es.take(i as int), cs.take(i as int)),
            decreases n - i,
        {
            let mut entry = pending.remove(0);
            assert(entry == all[i as int]);
            assert(pending@ =~= all.skip(i + 1));
            proof {
                assert(es.take(i + 1).drop_last() =~= es.take(i as int));
                assert(cs.take(i + 1).drop_last() =~= cs.take(i as int));
                assert(es.take(i + 1).last() == entry@);
                assert(cs.take(i + 1)[i as int] == checks@[i as int]@);
            }
            let keep = check_entry(&mut entry, &checks[i], dates, update);
            if keep {
                proof {
                    lemma_entries_push(self.entries@, entry);
                }
                self.entries.push(entry);
            }
            i = i + 1;
        }
        assert(es.take(n as int) =~= es);
        assert(cs.take(n as int) =~= cs);
    }

    /// Records a freshly resolved title. Entries are matched by remote id, the stable
    /// key (display names may change): the first entry with that id gets the resolved
    /// chapters reconciled into its own and the resolve's fetch times appended to its
    /// audit trail. A title not yet in the catalog is added, its
    /// chapters reconciled, once it has at least one chapter or a cover.
    pub fn resolve_dat(&mut self, resolved: MangaEntry)
        ensures
            final(self).version == old(self).version,
            forall|i: int|
                0 <= i < old(self).entries.len() && (#[trigger] old(self).entries@[i]).id@
                    == resolved.id@ && (forall|j: int|
                    0 <= j < i ==> (#[trigger] old(self).entries@[j]).id@ != resolved.id@)
                    ==> entries_model(final(self).entries@) == entries_model(
                    old(self).entries@,
                ).update(i, resolved_into(old(self).entries@[i]@, resolved@)),
            (forall|i: int|
                0 <= i < old(self).entries.len() ==> (#[trigger] old(self).entries@[i]).id@
                    != resolved.id@) ==> entries_model(final(self).entries@) == if resolved.chapters.len()
                > 0 || resolved.cover {
                entries_model(old(self).entries@).push(
                    updated_chapters(resolved@, Seq::empty()),
                )
            } else {
                entries_model(old(self).entries@)
            },
    {
        let ghost before = self.entries@;
        let mut p: usize = 0;
        while p < self.entries.len()
            invariant
                p <= self.entries.len(),
                before == self.entries@,
                self.version == old(self).version,
                before == old(self).entries@,
                forall|j: int| 0 <= j < p ==> (#[trigger] before[j]).id@ != resolved.id@,
            decreases self.entries.len() - p,
        {
            if self.entries[p].id == resolved.id {
                assert(before[p as int].id@ == resolved.id@);
                let mut entry = self.entries.remove(p);
                let chapters = reconcile(&entry.chapters, &resolved.chapters, &Vec::new());
                entry.chapters = chapters;
                let ghost old_date = entry.date@;
                let mut fetched = copy_texts(&resolved.date);
                entry.date.append(&mut fetched);
                assert(texts(entry.date@) =~= texts(old_date) + texts(resolved.date@));
                assert(records(Seq::<ChapterMetadata>::empty()) =~= Seq::<ChapterRecord>::empty());
                self.entries.insert(p, entry);
                assert(entries_model(self.entries@) =~= entries_model(before).update(
                    p as int,
                    resolved_into(before[p as int]@, resolved@),
                ));
                assert forall|i: int|
                    0 <= i < before.len() && (#[trigger] before[i]).id@ == resolved.id@ && (forall|
                        j: int,
                    | 0 <= j < i ==> (#[trigger] before[j]).id@ != resolved.id@) implies i == p by {
                    if i < p {
                    } else if i > p {
                        assert(before[p as int].id@ == resolved.id@);
                    }
                }
                return;
            }
            p = p + 1;
        }
        if resolved.chapters.len() > 0 || resolved.cover {
            let mut entry = resolved;
            let chapters = reconcile(&entry.chapters, &Vec::new(), &Vec::new());
            entry.chapters = chapters;
            assert(records(Seq::<ChapterMetadata>::empty()) =~= Seq::<ChapterRecord>::empty());
            proof {
                lemma_entries_push(self.entries@, entry);
            }
            self.entries.push(entry);
        }
    }
}

/// An entry that a fresh resolve of the same title updates: its chapters reconciled
/// with the resolved ones, the resolve's fetch times appended to its own.
pub open spec fn resolved_into(e: EntryModel, resolved: EntryModel) -> EntryModel {
    EntryModel {
        chapters: reconciled(e.chapters, resolved.chapters, Seq::empty()),
        date: e.date + resolved.date,
        ..e
    }
}

/// An entry with `fresh` folded into its chapters, nothing removed.
pub open spec fn updated_chapters(e: EntryModel, fresh: Seq<ChapterRecord>) -> EntryModel {
    EntryModel { chapters: reconciled(e.chapters, fresh, Seq::empty()), ..e }
}

/// Whether a title can be resolved in `language`: `*` accepts any language; otherwise
/// it must be the title's original language or one of its translations.
pub fn language_available(language: &str, original: &str, available: &Vec<String>) -> (r: bool)
    ensures
        r == (language@ == "*"@ || language@ == original@ || texts(available@).contains(language@)),
{
    if same_text(language, "*") || same_text(language, original) {
        return true;
    }
    let mut i: usize = 0;
    while i < available.len()
        invariant
            i <= available.len(),
            forall|k: int| 0 <= k < i ==> (#[trigger] available@[k])@ != language@,
        decreases available.len() - i,
    {
        if same_text(available[i].as_str(), language) {
            assert(texts(available@)[i as int] == language@);
            return true;
        }
        i = i + 1;
    }
    proof {
        if texts(available@).contains(language@) {
            let k = choose|k: int| 0 <= k < texts(available@).len() && texts(available@)[k] == language@;
            assert(available@[k]@ == language@);
        }
    }
    false
}

} // verus!
