//! Scans: the rows of a query read into entries and handed out in pages.

use vstd::prelude::*;
use crate::error::{Error, ErrorKind};
use crate::keys::EntryEncryptor;
use crate::postgres::{scan_entry, scan_row_entry, ScanRow};
use crate::types::{views, Entry, EntryView, PAGE_SIZE};

verus! {

/// The entries of a scan that were read and not handed out yet. It hands out
/// a page whenever `PAGE_SIZE` entries have come together, and what is left
/// at the end.
pub struct Scan {
    batch: Vec<Entry>,
}

/// The entries that a sequence of rows holds under `key`, in order, or the
/// error of the first row that cannot be read.
pub open spec fn rows_entries<K: EntryEncryptor>(key: K, category: Seq<char>, rows: Seq<ScanRow>)
    -> Result<Seq<EntryView>, ErrorKind>
    decreases rows.len(),
{
    if rows.len() == 0 {
        Ok(Seq::empty())
    } else {
        match rows_entries(key, category, rows.drop_last()) {
            Err(e) => Err(e),
            Ok(entries) => match scan_row_entry(key, category, rows.last()) {
                Err(e) => Err(e),
                Ok(entry) => Ok(entries.push(entry)),
            },
        }
    }
}

impl Scan {
    /// The entries that were read and not handed out yet.
    pub closed spec fn pending(&self) -> Seq<EntryView> {
        views(self.batch@)
    }

    /// The invariant of a scan: it holds less than a page.
    pub open spec fn well_formed(&self) -> bool {
        self.pending().len() < PAGE_SIZE
    }

    /// A scan that has read nothing.
    pub fn new() -> (scan: Scan)
        ensures
            scan.well_formed(),
            scan.pending() == Seq::<EntryView>::empty(),
    {
        let scan = Scan { batch: Vec::with_capacity(PAGE_SIZE) };
        assert(scan.pending() =~= Seq::<EntryView>::empty());
        scan
    }

    /// Takes the next entry. Where it fills a page, the page is handed out.
    pub fn push(&mut self, entry: Entry) -> (page: Option<Vec<Entry>>)
        requires
            old(self).well_formed(),
        ensures
            final(self).well_formed(),
            match page {
                Some(p) => views(p@) == old(self).pending().push(entry@) && p@.len() == PAGE_SIZE
                    && final(self).pending() == Seq::<EntryView>::empty(),
                None => final(self).pending() == old(self).pending().push(entry@),
            },
            (handed(page), final(self).pending()) == paged(old(self).pending(), seq![entry@]),
    {
        proof {
            let one = seq![entry@];
            assert(one.drop_last() =~= Seq::<EntryView>::empty());
            assert(paged(old(self).pending(), one.drop_last()) == (
                Seq::<Seq<EntryView>>::empty(),
                old(self).pending(),
            ));
        }
        self.batch.push(entry);
        assert(views(self.batch@) =~= old(self).pending().push(entry@));
        if self.batch.len() == PAGE_SIZE {
            let page = self.batch.split_off(0);
            assert(page@ =~= old(self).batch@.push(entry));
            assert(views(self.batch@) =~= Seq::<EntryView>::empty());
            assert(handed(Some(page)) =~= Seq::<Seq<EntryView>>::empty().push(views(page@)));
            Some(page)
        } else {
            None
        }
    }

    /// Reads the next row of the scan. Where its entry fills a page, the page
    /// is handed out. A row that cannot be read leaves the scan as it was.
    pub fn push_row<K: EntryEncryptor>(&mut self, key: &K, category: &str, row: &ScanRow) -> (out:
        Result<Option<Vec<Entry>>, Error>)
        requires
            old(self).well_formed(),
        ensures
            final(self).well_formed(),
            match scan_row_entry(*key, category@, *row) {
                Ok(entry) => match out {
                    Ok(Some(p)) => views(p@) == old(self).pending().push(entry) && p@.len()
                        == PAGE_SIZE && final(self).pending() == Seq::<EntryView>::empty(),
                    Ok(None) => final(self).pending() == old(self).pending().push(entry),
                    Err(_) => false,
                },
                Err(kind) => out matches Err(e) && e.kind == kind && final(self).pending() == old(
                    self,
                ).pending(),
            },
    {
        let entry = scan_entry(key, category, row)?;
        Ok(self.push(entry))
    }

    /// Ends the scan and hands out what is left, if anything is.
    pub fn finish(self) -> (page: Option<Vec<Entry>>)
        requires
            self.well_formed(),
        ensures
            match page {
                Some(p) => views(p@) == self.pending() && 0 < p@.len() < PAGE_SIZE,
                None => self.pending().len() == 0,
            },
    {
        if self.batch.len() > 0 {
            Some(self.batch)
        } else {
            None
        }
    }
}

/// Reads all rows of a scan and collects the pages: the entries of the rows,
/// in the order of the rows. The first row that cannot be read ends the scan
/// with its error.
pub fn fetch_all<K: EntryEncryptor>(key: &K, category: &str, rows: &[ScanRow]) -> (out: Result<
    Vec<Entry>,
    Error,
>)
    ensures
        match out {
            Ok(entries) => rows_entries(*key, category@, rows@) == Ok::<Seq<EntryView>, ErrorKind>(
                views(entries@),
            ),
            Err(e) => rows_entries(*key, category@, rows@) == Err::<Seq<EntryView>, ErrorKind>(
                e.kind,
            ),
        },
{
    let mut scan = Scan::new();
    let mut results: Vec<Entry> = Vec::new();
    let mut i: usize = 0;
    assert(rows@.take(0) =~= Seq::<ScanRow>::empty());
    assert(views(results@) + scan.pending() =~= Seq::<EntryView>::empty());
    while i < rows.len()
        invariant
            i <= rows@.len(),
            scan.well_formed(),
            rows_entries(*key, category@, rows@.take(i as int)) == Ok::<
                Seq<EntryView>,
                ErrorKind,
            >(views(results@) + scan.pending()),
        decreases rows@.len() - i,
    {
        let ghost before = views(results@) + scan.pending();
        let ghost collected = views(results@);
        proof {
            assert(rows@.take(i + 1).drop_last() =~= rows@.take(i as int));
            assert(rows@.take(i + 1).last() == rows@[i as int]);
        }
        match scan.push_row(key, category, &rows[i]) {
            Ok(Some(page)) => {
                let mut page = page;
                let ghost added = views(page@);
                results.append(&mut page);
                assert(views(results@) =~= collected + added);
                assert(views(results@) + scan.pending() =~= before.push(
                    scan_row_entry(*key, category@, rows@[i as int]).unwrap(),
                ));
            },
            Ok(None) => {
                assert(views(results@) + scan.pending() =~= before.push(
                    scan_row_entry(*key, category@, rows@[i as int]).unwrap(),
                ));
            },
            Err(e) => {
                proof {
                    lemma_rows_entries_error(*key, category@, rows@, i + 1);
                }
                return Err(e);
            },
        }
        i += 1;
    }
    assert(rows@.take(i as int) =~= rows@);
    let ghost collected = views(results@);
    match scan.finish() {
        Some(page) => {
            let mut page = page;
            let ghost added = views(page@);
            results.append(&mut page);
            assert(views(results@) =~= collected + added);
        },
        None => {
            assert(collected + scan.pending() =~= collected);
        },
    }
    Ok(results)
}

/// Where a prefix of the rows cannot be read, neither can the rows, and the
/// error is the same.
pub proof fn lemma_rows_entries_error<K: EntryEncryptor>(
    key: K,
    category: Seq<char>,
    rows: Seq<ScanRow>,
    n: int,
)
    requires
        0 <= n <= rows.len(),
        rows_entries(key, category, rows.take(n)) is Err,
    ensures
        rows_entries(key, category, rows) == rows_entries(key, category, rows.take(n)),
    decreases rows.len() - n,
{
    if n == rows.len() {
        assert(rows.take(n) =~= rows);
    } else {
        assert(rows.take(n + 1).drop_last() =~= rows.take(n));
        lemma_rows_entries_error(key, category, rows, n + 1);
    }
}

/// The pages that a scan hands out while it takes `entries`, starting with
/// `pending` entries in hand, and what it has in hand at the end.
pub open spec fn paged(pending: Seq<EntryView>, entries: Seq<EntryView>) -> (
    Seq<Seq<EntryView>>,
    Seq<EntryView>,
)
    decreases entries.len(),
{
    if entries.len() == 0 {
        (Seq::empty(), pending)
    } else {
        let (pages, held) = paged(pending, entries.drop_last());
        let now = held.push(entries.last());
        if now.len() == PAGE_SIZE {
            (pages.push(now), Seq::empty())
        } else {
            (pages, now)
        }
    }
}

/// The pages that one step of a scan hands out: one or none.
pub open spec fn handed(page: Option<Vec<Entry>>) -> Seq<Seq<EntryView>> {
    match page {
        Some(p) => seq![views(p@)],
        None => Seq::empty(),
    }
}

/// Taking entries in two runs hands out the pages of the first run and then
/// those of the second, which starts with what the first has in hand.
pub proof fn lemma_paged_in_runs(
    pending: Seq<EntryView>,
    first: Seq<EntryView>,
    second: Seq<EntryView>,
)
    ensures
        paged(pending, first + second) == (
            paged(pending, first).0 + paged(paged(pending, first).1, second).0,
            paged(paged(pending, first).1, second).1,
        ),
    decreases second.len(),
{
    let (pages, held) = paged(pending, first);
    if second.len() == 0 {
        assert(first + second =~= first);
        assert(pages + Seq::<Seq<EntryView>>::empty() =~= pages);
    } else {
        lemma_paged_in_runs(pending, first, second.drop_last());
        assert((first + second).drop_last() =~= first + second.drop_last());
        assert((first + second).last() == second.last());
        let (more, after) = paged(held, second.drop_last());
        let now = after.push(second.last());
        if now.len() == PAGE_SIZE {
            assert((pages + more).push(now) =~= pages + more.push(now));
        }
    }
}

/// The entries of a sequence of pages, in order.
pub open spec fn joined(pages: Seq<Seq<EntryView>>) -> Seq<EntryView>
    decreases pages.len(),
{
    if pages.len() == 0 {
        Seq::empty()
    } else {
        joined(pages.drop_last()) + pages.last()
    }
}

/// A scan hands the entries out in the order in which it took them, none
/// twice and none left out; every page that it hands out before the end is
/// full, and what it holds at the end is less than a page.
pub proof fn lemma_scan_pages(pending: Seq<EntryView>, entries: Seq<EntryView>)
    requires
        pending.len() < PAGE_SIZE,
    ensures
        joined(paged(pending, entries).0) + paged(pending, entries).1 == pending + entries,
        forall|k: int|
            0 <= k < paged(pending, entries).0.len() ==> (#[trigger] paged(pending, entries).0[k]).len()
                == PAGE_SIZE,
        paged(pending, entries).1.len() < PAGE_SIZE,
    decreases entries.len(),
{
    if entries.len() == 0 {
        assert(joined(paged(pending, entries).0) =~= Seq::<EntryView>::empty());
        assert(pending + entries =~= pending);
    } else {
        let front = entries.drop_last();
        lemma_scan_pages(pending, front);
        let (pages, held) = paged(pending, front);
        let now = held.push(entries.last());
        assert(pending + entries =~= (pending + front).push(entries.last()));
        if now.len() == PAGE_SIZE {
            assert(pages.push(now).drop_last() =~= pages);
            assert(joined(pages.push(now)) + Seq::<EntryView>::empty() =~= (joined(pages) + held).push(
                entries.last(),
            ));
        } else {
            assert(joined(pages) + now =~= (joined(pages) + held).push(entries.last()));
        }
    }
}

} // verus!
