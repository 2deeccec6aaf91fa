//! The shared library: every title once, under an identifier of its own.

use crate::ids::{exhausted, is_smallest_unused, smallest_unused};
use crate::storage::{chapter_dir, chapter_dir_name, StorageResult};
use crate::story::{chapters_view, Chapter, ChapterView, SystemTitle, SystemTitleView};
use crate::text::same_text;
use crate::timestamp::{days_between, get_duration, get_time};
use crate::web::{links_view, Link, LinkView, Page, PageView};
use vstd::prelude::*;
use vstd::relations::{sorted_by, total_ordering};
use vstd::seq_lib::lemma_sorted_unique;

verus! {

/// The titles of the library. No two share an identifier, and no two come
/// from the same address: see [`Library::wf`].
pub struct Library {
    pub titles: Vec<SystemTitle>,
}

/// Why the library refused an operation.
#[derive(Clone, Copy, Debug, PartialEq, Eq, Structural)]
pub enum LibraryError {
    /// The library holds no title with that identifier.
    NotFound,
    /// The title holds no chapter at that position.
    NoChapter,
    /// Every identifier is taken.
    Full,
}

/// The identifiers of `titles`, in order.
pub open spec fn ids_of(titles: Seq<SystemTitle>) -> Seq<u32> {
    titles.map_values(|t: SystemTitle| t.id)
}

/// No two of `titles` share an identifier or an address.
pub open spec fn distinct(titles: Seq<SystemTitle>) -> bool {
    forall|i: int, j: int|
        0 <= i < j < titles.len() ==> (#[trigger] titles[i]).id != (#[trigger] titles[j]).id
            && titles[i].url@ != titles[j].url@
}

/// Whether one of `titles` has the identifier `id`.
pub open spec fn holds_id(titles: Seq<SystemTitle>, id: u32) -> bool {
    exists|k: int| 0 <= k < titles.len() && (#[trigger] titles[k]).id == id
}

/// Whether one of `titles` comes from `url`.
pub open spec fn holds_url(titles: Seq<SystemTitle>, url: Seq<char>) -> bool {
    exists|k: int| 0 <= k < titles.len() && (#[trigger] titles[k]).url@ == url
}

/// `k` is the first position whose title has the identifier `id`.
pub open spec fn first_with_id(titles: Seq<SystemTitle>, id: u32, k: int) -> bool {
    &&& 0 <= k < titles.len()
    &&& titles[k].id == id
    &&& forall|j: int| 0 <= j < k ==> (#[trigger] titles[j]).id != id
}

/// `k` is the first position whose title comes from `url`.
pub open spec fn first_with_url(titles: Seq<SystemTitle>, url: Seq<char>, k: int) -> bool {
    &&& 0 <= k < titles.len()
    &&& titles[k].url@ == url
    &&& forall|j: int| 0 <= j < k ==> (#[trigger] titles[j]).url@ != url
}

/// The position of the title `id`.
pub open spec fn position_of(titles: Seq<SystemTitle>, id: u32) -> int {
    choose|k: int| first_with_id(titles, id, k)
}

/// A title that is held is held at a first position.
pub proof fn lemma_first_position(titles: Seq<SystemTitle>, id: u32, k: int)
    requires
        0 <= k < titles.len(),
        titles[k].id == id,
    ensures
        first_with_id(titles, id, position_of(titles, id)),
        position_of(titles, id) <= k,
    decreases k,
{
    if forall|j: int| 0 <= j < k ==> (#[trigger] titles[j]).id != id {
        assert(first_with_id(titles, id, k));
        let chosen = position_of(titles, id);
        if k < chosen {
            assert(titles[k].id != id);
        }
    } else {
        let j = choose|j: int| 0 <= j < k && (#[trigger] titles[j]).id == id;
        lemma_first_position(titles, id, j);
    }
}

/// The chapters that a listing stands for: description and full address.
pub open spec fn chapters_from(links: Seq<LinkView>) -> Seq<ChapterView> {
    Seq::new(links.len(), |k: int| ChapterView { desc: links[k].desc, url: links[k].href })
}

/// The title that a page read on `today` makes under the identifier `id`.
pub open spec fn title_from(id: u32, url: Seq<char>, page: PageView, today: Seq<char>)
    -> SystemTitleView {
    SystemTitleView {
        id,
        title: page.title,
        last_updated: today,
        url,
        chapters: chapters_from(page.links),
    }
}

/// When chapters are thrown away.
pub struct Retention {
    /// A title that has had no new chapter for this many days loses all its
    /// stored chapters. Its entry in the library stays.
    pub stale_after: i64,
    /// Most chapters that a title which is not stale keeps stored.
    pub max_chapters: usize,
}

/// What the sweep does to one title's stored chapters.
pub enum Sweep {
    /// Remove every stored chapter; keep the title's directory and entry.
    Clear,
    /// Remove these chapters: the oldest ones, by ascending identifier.
    Prune(Vec<u32>),
    /// Leave everything.
    Keep,
    /// The title's date cannot be read; leave everything.
    BadDate,
}

/// A sweep decision as plain values.
pub enum SweepView {
    Clear,
    Prune(Seq<u32>),
    Keep,
    BadDate,
}

impl View for Sweep {
    type V = SweepView;

    open spec fn view(&self) -> SweepView {
        match self {
            Sweep::Clear => SweepView::Clear,
            Sweep::Prune(ids) => SweepView::Prune(ids@),
            Sweep::Keep => SweepView::Keep,
            Sweep::BadDate => SweepView::BadDate,
        }
    }
}

/// `ids` in ascending order.
pub open spec fn ascending(ids: Seq<u32>) -> Seq<u32> {
    ids.sort_by(|a: u32, b: u32| a <= b)
}

/// What the sweep does to a title that was last updated `days` days ago and
/// has `stored` chapters in its directory.
pub open spec fn sweep_of(days: Option<int>, stored: Seq<u32>, policy: Retention) -> SweepView {
    match days {
        None => SweepView::BadDate,
        Some(age) => if age >= policy.stale_after {
            SweepView::Clear
        } else if stored.len() > policy.max_chapters {
            SweepView::Prune(ascending(stored).take(stored.len() - policy.max_chapters))
        } else {
            SweepView::Keep
        },
    }
}

/// Pruning leaves the newest chapters: of `stored`, as many as the policy
/// allows stay, and none of them has a smaller identifier than a chapter
/// that goes.
pub proof fn lemma_prune_keeps_newest(stored: Seq<u32>, policy: Retention, age: int)
    requires
        age < policy.stale_after,
        stored.len() > policy.max_chapters,
    ensures
        ({
            let gone = ascending(stored).take(stored.len() - policy.max_chapters);
            let kept = ascending(stored).skip(stored.len() - policy.max_chapters);
            &&& sweep_of(Some(age), stored, policy) == SweepView::Prune(gone)
            &&& kept.len() == policy.max_chapters
            &&& (gone + kept).to_multiset() == stored.to_multiset()
            &&& forall|i: int, j: int|
                0 <= i < gone.len() && 0 <= j < kept.len() ==> #[trigger] gone[i]
                    <= #[trigger] kept[j]
        }),
{
    let leq = |a: u32, b: u32| a <= b;
    let sorted = ascending(stored);
    let cut = stored.len() - policy.max_chapters;
    assert(total_ordering(leq));
    stored.lemma_sort_by_ensures(leq);
    sorted.to_multiset_ensures();
    stored.to_multiset_ensures();
    assert(sorted.len() == stored.len());
    assert(sorted.take(cut) + sorted.skip(cut) =~= sorted);
    assert forall|i: int, j: int|
        0 <= i < sorted.take(cut).len() && 0 <= j < sorted.skip(cut).len() implies #[trigger] sorted.take(
        cut,
    )[i] <= #[trigger] sorted.skip(cut)[j] by {
        assert(leq(sorted[i], sorted[cut + j]));
    }
}

/// What the chapter step at `chapter_id` of title `title_id` is.
pub enum ChapterStep {
    /// The directory was made just now: fetch the chapter at `url` into
    /// `dir`.
    Download { dir: String, url: String },
    /// The directory was there: the chapter is taken as downloaded.
    AlreadyDownloaded { dir: String },
}

/// Sorts identifiers in ascending order.
///
/// Calls `sort` of std's slices, which orders the elements from least to
/// greatest and keeps every element, as often as it occurred.
#[verifier::external_body]
fn sort_ids(ids: &mut Vec<u32>)
    ensures
        sorted_by(final(ids)@, |a: u32, b: u32| a <= b),
        final(ids)@.to_multiset() == old(ids)@.to_multiset(),
{
    ids.sort();
}

fn chapters_beyond(links: &Vec<Link>, from: usize) -> (chapters: Vec<Chapter>)
    requires
        from <= links.len(),
    ensures
        chapters_view(chapters@) == chapters_from(links_view(links@)).skip(from as int),
{
    let mut chapters: Vec<Chapter> = Vec::new();
    let mut k: usize = from;
    while k < links.len()
        invariant
            from <= k <= links.len(),
            chapters@.len() == k - from,
            forall|j: int|
                0 <= j < k - from ==> (#[trigger] chapters@[j])@ == chapters_from(
                    links_view(links@),
                )[from + j],
        decreases links.len() - k,
    {
        assert(links_view(links@)[k as int] == links@[k as int]@);
        chapters.push(Chapter { desc: links[k].desc.clone(), url: links[k].href.clone() });
        k = k + 1;
    }
    assert(chapters_view(chapters@) =~= chapters_from(links_view(links@)).skip(from as int));
    chapters
}

fn copy_ids(ids: &Vec<u32>) -> (copy: Vec<u32>)
    ensures
        copy@ == ids@,
{
    let mut copy: Vec<u32> = Vec::new();
    let mut k: usize = 0;
    while k < ids.len()
        invariant
            k <= ids.len(),
            copy@ == ids@.take(k as int),
        decreases ids.len() - k,
    {
        copy.push(ids[k]);
        assert(ids@.take(k + 1) =~= ids@.take(k as int).push(ids@[k as int]));
        k = k + 1;
    }
    assert(ids@.take(k as int) =~= ids@);
    copy
}

/// Decides what the sweep does to one title, from its age in days and the
/// chapters found in its directory.
pub fn sweep_title(days: Option<i64>, stored: &Vec<u32>, policy: &Retention) -> (sweep: Sweep)
    ensures
        sweep@ == sweep_of(
            match days {
                Some(age) => Some(age as int),
                None => None,
            },
            stored@,
            *policy,
        ),
{
    match days {
        None => Sweep::BadDate,
        Some(age) => {
            if age >= policy.stale_after {
                Sweep::Clear
            } else if stored.len() > policy.max_chapters {
                let mut ordered = copy_ids(stored);
                sort_ids(&mut ordered);
                proof {
                    let leq = |a: u32, b: u32| a <= b;
                    assert(total_ordering(leq));
                    stored@.lemma_sort_by_ensures(leq);
                    lemma_sorted_unique(ordered@, stored@.sort_by(leq), leq);
                    ordered@.to_multiset_ensures();
                    stored@.to_multiset_ensures();
                }
                ordered.truncate(stored.len() - policy.max_chapters);
                assert(ordered@ =~= ascending(stored@).take(stored.len() - policy.max_chapters));
                Sweep::Prune(ordered)
            } else {
                Sweep::Keep
            }
        },
    }
}

impl Library {
    /// The invariant of the library.
    pub open spec fn wf(&self) -> bool {
        distinct(self.titles@)
    }

    /// A library of `titles`; `None` when two of them share an identifier
    /// or an address.
    pub fn new(titles: Vec<SystemTitle>) -> (r: Option<Library>)
        ensures
            r is Some <==> distinct(titles@),
            r matches Some(library) ==> library.titles == titles && library.wf(),
    {
        let mut j: usize = 0;
        while j < titles.len()
            invariant
                j <= titles.len(),
                forall|a: int, b: int|
                    0 <= a < b < j ==> (#[trigger] titles@[a]).id != (#[trigger] titles@[b]).id
                        && titles@[a].url@ != titles@[b].url@,
            decreases titles.len() - j,
        {
            let mut i: usize = 0;
            while i < j
                invariant
                    i <= j < titles.len(),
                    forall|a: int|
                        0 <= a < i ==> (#[trigger] titles@[a]).id != titles@[j as int].id
                            && titles@[a].url@ != titles@[j as int].url@,
                decreases j - i,
            {
                if titles[i].id == titles[j].id || same_text(
                    titles[i].url.as_str(),
                    titles[j].url.as_str(),
                ) {
                    assert(!(titles@[i as int].id != titles@[j as int].id && titles@[i as int].url@
                        != titles@[j as int].url@));
                    return None;
                }
                i = i + 1;
            }
            j = j + 1;
        }
        Some(Library { titles })
    }

    fn find_id(&self, id: u32) -> (r: Option<usize>)
        ensures
            r is Some <==> holds_id(self.titles@, id),
            r matches Some(k) ==> first_with_id(self.titles@, id, k as int) && k as int
                == position_of(self.titles@, id),
    {
        let mut k: usize = 0;
        while k < self.titles.len()
            invariant
                k <= self.titles.len(),
                forall|j: int| 0 <= j < k ==> (#[trigger] self.titles@[j]).id != id,
            decreases self.titles.len() - k,
        {
            if self.titles[k].id == id {
                proof {
                    let chosen = position_of(self.titles@, id);
                    assert(first_with_id(self.titles@, id, k as int));
                    assert(first_with_id(self.titles@, id, chosen));
                    if chosen < k {
                        assert(self.titles@[chosen].id != id);
                    }
                    if k < chosen {
                        assert(self.titles@[k as int].id != id);
                    }
                }
                return Some(k);
            }
            k = k + 1;
        }
        None
    }

    fn find_url(&self, url: &str) -> (r: Option<usize>)
        ensures
            r is Some <==> holds_url(self.titles@, url@),
            r matches Some(k) ==> first_with_url(self.titles@, url@, k as int),
    {
        let mut k: usize = 0;
        while k < self.titles.len()
            invariant
                k <= self.titles.len(),
                forall|j: int| 0 <= j < k ==> (#[trigger] self.titles@[j]).url@ != url@,
            decreases self.titles.len() - k,
        {
            if same_text(self.titles[k].url.as_str(), url) {
                return Some(k);
            }
            k = k + 1;
        }
        None
    }

    /// The title with the identifier `id`, if the library holds it.
    pub fn get_title_by_id(&self, id: u32) -> (r: Option<&SystemTitle>)
        ensures
            r is Some <==> holds_id(self.titles@, id),
            r matches Some(title) ==> first_with_id(
                self.titles@,
                id,
                position_of(self.titles@, id),
            ) && *title == self.titles@[position_of(self.titles@, id)],
    {
        match self.find_id(id) {
            Some(k) => Some(&self.titles[k]),
            None => None,
        }
    }

    /// The title that comes from `url`, if the library holds it.
    pub fn get_title_by_url(&self, url: &str) -> (r: Option<&SystemTitle>)
        ensures
            r is Some <==> holds_url(self.titles@, url@),
            r matches Some(title) ==> title.url@ == url@ && exists|k: int|
                first_with_url(self.titles@, url@, k) && *title == self.titles@[k],
    {
        match self.find_url(url) {
            Some(k) => Some(&self.titles[k]),
            None => None,
        }
    }

    /// The smallest identifier that no title has; `None` only when every
    /// identifier is taken, which takes more titles than `u32::MAX`.
    pub fn get_new_id(&self) -> (r: Option<u32>)
        ensures
            r matches Some(id) ==> is_smallest_unused(ids_of(self.titles@).to_set(), id)
                && !holds_id(self.titles@, id),
            r is None <==> exhausted(ids_of(self.titles@).to_set()),
            self.titles@.len() <= u32::MAX ==> r is Some,
    {
        let mut ids: Vec<u32> = Vec::new();
        let mut k: usize = 0;
        while k < self.titles.len()
            invariant
                k <= self.titles.len(),
                ids@ == ids_of(self.titles@.take(k as int)),
            decreases self.titles.len() - k,
        {
            ids.push(self.titles[k].id);
            assert(ids_of(self.titles@.take(k + 1)) =~= ids_of(self.titles@.take(k as int)).push(
                self.titles@[k as int].id,
            ));
            k = k + 1;
        }
        assert(self.titles@.take(k as int) =~= self.titles@);
        let r = smallest_unused(&ids);
        proof {
            if let Some(id) = r {
                if holds_id(self.titles@, id) {
                    let j = choose|j: int|
                        0 <= j < self.titles@.len() && (#[trigger] self.titles@[j]).id == id;
                    assert(ids_of(self.titles@)[j] == id);
                    assert(ids_of(self.titles@).contains(id));
                }
            }
        }
        r
    }

    /// Adds the title that `page` describes, read from `url` on `today`.
    /// When the library already holds a title from `url`, nothing changes
    /// and a copy of that title is returned.
    pub fn add_title_on(&mut self, url: &str, page: &Page, today: String) -> (r: Result<
        SystemTitle,
        LibraryError,
    >)
        requires
            old(self).wf(),
        ensures
            final(self).wf(),
            r is Err <==> !holds_url(old(self).titles@, url@) && exhausted(
                ids_of(old(self).titles@).to_set(),
            ),
            old(self).titles@.len() <= u32::MAX ==> r is Ok,
            r matches Err(e) ==> e == LibraryError::Full && final(self).titles@ == old(self).titles@,
            r matches Ok(title) ==> if holds_url(old(self).titles@, url@) {
                &&& final(self).titles@ == old(self).titles@
                &&& exists|k: int|
                    first_with_url(old(self).titles@, url@, k) && title@ == old(self).titles@[k]@
            } else {
                &&& is_smallest_unused(ids_of(old(self).titles@).to_set(), title.id)
                &&& title@ == title_from(title.id, url@, page@, today@)
                &&& final(self).titles@.len() == old(self).titles@.len() + 1
                &&& final(self).titles@.drop_last() == old(self).titles@
                &&& final(self).titles@.last()@ == title@
            },
    {
        match self.find_url(url) {
            Some(k) => Ok(self.titles[k].duplicate()),
            None => match self.get_new_id() {
                None => Err(LibraryError::Full),
                Some(id) => {
                    let chapters = chapters_beyond(&page.links, 0);
                    assert(chapters_from(links_view(page.links@)).skip(0) =~= chapters_from(
                        links_view(page.links@),
                    ));
                    let title = SystemTitle {
                        id,
                        title: page.title.clone(),
                        last_updated: today,
                        url: String::from_str(url),
                        chapters,
                    };
                    let copy = title.duplicate();
                    self.titles.push(title);
                    proof {
                        let before = old(self).titles@;
                        let after = self.titles@;
                        assert(after.drop_last() =~= before);
                        assert forall|i: int, j: int| 0 <= i < j < after.len() implies (
                        #[trigger] after[i]).id != (#[trigger] after[j]).id && after[i].url@
                            != after[j].url@ by {
                            if j < before.len() {
                                assert(after[i] == before[i]);
                                assert(after[j] == before[j]);
                            } else {
                                assert(after[i] == before[i]);
                            }
                        }
                    }
                    Ok(copy)
                },
            },
        }
    }

    /// Adds a title read today: as [`Library::add_title_on`], with the date
    /// taken from the clock.
    pub fn add_title(&mut self, url: &str, page: &Page) -> (r: Result<SystemTitle, LibraryError>)
        requires
            old(self).wf(),
        ensures
            final(self).wf(),
            r is Err <==> !holds_url(old(self).titles@, url@) && exhausted(
                ids_of(old(self).titles@).to_set(),
            ),
            old(self).titles@.len() <= u32::MAX ==> r is Ok,
            r is Err ==> final(self).titles@ == old(self).titles@,
            r is Ok && holds_url(old(self).titles@, url@) ==> final(self).titles@ == old(self).titles@,
            r matches Ok(title) ==> holds_url(old(self).titles@, url@) ==> exists|k: int|
                first_with_url(old(self).titles@, url@, k) && title@ == old(self).titles@[k]@,
            r matches Ok(title) ==> !holds_url(old(self).titles@, url@) ==> {
                &&& is_smallest_unused(ids_of(old(self).titles@).to_set(), title.id)
                &&& final(self).titles@.drop_last() == old(self).titles@
                &&& final(self).titles@.last()@ == title@
                &&& title@.url == url@
                &&& title@.title == page@.title
                &&& title@.chapters == chapters_from(page@.links)
            },
    {
        self.add_title_on(url, page, get_time())
    }

    /// Removes the title `id`. The other titles keep their order.
    pub fn remove_title(&mut self, id: u32) -> (r: Result<(), LibraryError>)
        requires
            old(self).wf(),
        ensures
            final(self).wf(),
            r is Err <==> !holds_id(old(self).titles@, id),
            r matches Err(e) ==> e == LibraryError::NotFound && final(self).titles@ == old(self).titles@,
            r is Ok ==> {
                &&& first_with_id(old(self).titles@, id, position_of(old(self).titles@, id))
                &&& final(self).titles@ == old(self).titles@.remove(
                    position_of(old(self).titles@, id),
                )
                &&& !holds_id(final(self).titles@, id)
            },
    {
        match self.find_id(id) {
            None => Err(LibraryError::NotFound),
            Some(k) => {
                self.titles.remove(k);
                proof {
                    let before = old(self).titles@;
                    let after = self.titles@;
                    assert forall|i: int| 0 <= i < after.len() implies (#[trigger] after[i])
                        == before[if i < k { i } else { i + 1 }] by {}
                    assert forall|i: int, j: int| 0 <= i < j < after.len() implies (
                    #[trigger] after[i]).id != (#[trigger] after[j]).id && after[i].url@
                        != after[j].url@ by {
                        let a = if i < k { i } else { i + 1 };
                        let b = if j < k { j } else { j + 1 };
                        assert(after[i] == before[a]);
                        assert(after[j] == before[b]);
                    }
                    if holds_id(after, id) {
                        let i = choose|i: int| 0 <= i < after.len() && (#[trigger] after[i]).id == id;
                        let a = if i < k { i } else { i + 1 };
                        assert(after[i] == before[a]);
                        if a < k {
                            assert(before[a].id != before[k as int].id);
                        } else {
                            assert(before[k as int].id != before[a].id);
                        }
                    }
                }
                Ok(())
            },
        }
    }

    /// Takes a fresh listing of the title `id`, oldest chapter first, read
    /// on `today`. Chapters beyond those held are appended and the title is
    /// dated `today`; the chapters held stay as they are. Says whether
    /// anything was appended.
    pub fn update_title(&mut self, id: u32, listing: &Vec<Link>, today: String) -> (r: Result<
        bool,
        LibraryError,
    >)
        requires
            old(self).wf(),
        ensures
            final(self).wf(),
            r is Err <==> !holds_id(old(self).titles@, id),
            r matches Err(e) ==> e == LibraryError::NotFound && final(self).titles@ == old(self).titles@,
            r matches Ok(changed) ==> {
                let k = position_of(old(self).titles@, id);
                let before = old(self).titles@[k];
                let after = final(self).titles@[k];
                &&& first_with_id(old(self).titles@, id, k)
                &&& changed == (listing@.len() > before.chapters@.len())
                &&& final(self).titles@.len() == old(self).titles@.len()
                &&& forall|j: int|
                    0 <= j < old(self).titles@.len() && j != k ==> #[trigger] final(self).titles@[j] == old(self).titles@[j]
                &&& !changed ==> after == before
                &&& changed ==> {
                    &&& after.id == before.id
                    &&& after.title == before.title
                    &&& after.url == before.url
                    &&& after.last_updated@ == today@
                    &&& after.chapters@.len() == listing@.len()
                    &&& after.chapters@.take(before.chapters@.len() as int) == before.chapters@
                    &&& chapters_view(after.chapters@.skip(before.chapters@.len() as int))
                        == chapters_from(links_view(listing@)).skip(
                        before.chapters@.len() as int,
                    )
                }
            },
    {
        let k = match self.find_id(id) {
            None => {
                return Err(LibraryError::NotFound);
            },
            Some(k) => k,
        };
        let held: usize = self.titles[k].chapters.len();
        if listing.len() <= held {
            return Ok(false);
        }
        let mut fresh = chapters_beyond(listing, held);
        let ghost grown = fresh@;
        assert(chapters_view(grown).len() == grown.len());
        assert(links_view(listing@).len() == listing@.len());
        assert(grown.len() == listing@.len() - held);
        let mut title = self.titles.remove(k);
        let ghost before = title;
        title.chapters.append(&mut fresh);
        title.last_updated = today;
        assert(title.chapters@.take(held as int) =~= before.chapters@);
        assert(title.chapters@.skip(held as int) =~= grown);
        self.titles.insert(k, title);
        proof {
            let was = old(self).titles@;
            let now = self.titles@;
            assert forall|j: int| 0 <= j < was.len() && j != k implies #[trigger] now[j]
                == was[j] by {}
            assert forall|i: int, j: int| 0 <= i < j < now.len() implies (#[trigger] now[i]).id != (
            #[trigger] now[j]).id && now[i].url@ != now[j].url@ by {
                assert(was[i].id != was[j].id && was[i].url@ != was[j].url@);
            }
        }
        Ok(true)
    }

    /// The address of chapter `chapter_id` of the title `title_id`.
    pub fn chapter_url(&self, title_id: u32, chapter_id: u32) -> (r: Result<String, LibraryError>)
        ensures
            !holds_id(self.titles@, title_id) ==> r == Err::<String, LibraryError>(
                LibraryError::NotFound,
            ),
            holds_id(self.titles@, title_id) ==> {
                let title = self.titles@[position_of(self.titles@, title_id)];
                &&& first_with_id(self.titles@, title_id, position_of(self.titles@, title_id))
                &&& if chapter_id < title.chapters@.len() {
                    r is Ok && r->Ok_0@ == title.chapters@[chapter_id as int].url@
                } else {
                    r == Err::<String, LibraryError>(LibraryError::NoChapter)
                }
            },
    {
        match self.find_id(title_id) {
            None => Err(LibraryError::NotFound),
            Some(k) => {
                let title = &self.titles[k];
                if (chapter_id as usize) < title.chapters.len() {
                    Ok(title.chapters[chapter_id as usize].url.clone())
                } else {
                    Err(LibraryError::NoChapter)
                }
            },
        }
    }

    /// Decides how to bring chapter `chapter_id` of title `title_id` into
    /// storage, once its directory was set up with the outcome `setup`:
    /// a directory made just now is to be filled, one that was there is
    /// taken as downloaded.
    pub fn add_chapter(&self, title_id: u32, chapter_id: u32, setup: StorageResult) -> (r: Result<
        ChapterStep,
        LibraryError,
    >)
        ensures
            !holds_id(self.titles@, title_id) ==> r is Err && r->Err_0 == LibraryError::NotFound,
            holds_id(self.titles@, title_id) ==> {
                let title = self.titles@[position_of(self.titles@, title_id)];
                &&& first_with_id(self.titles@, title_id, position_of(self.titles@, title_id))
                &&& if chapter_id >= title.chapters@.len() {
                    r is Err && r->Err_0 == LibraryError::NoChapter
                } else {
                    match setup {
                        StorageResult::Success => r matches Ok(ChapterStep::Download { dir, url })
                            && dir@ == chapter_dir_name(title_id, chapter_id) && url@
                            == title.chapters@[chapter_id as int].url@,
                        StorageResult::AlreadyExists => r matches Ok(
                            ChapterStep::AlreadyDownloaded { dir },
                        ) && dir@ == chapter_dir_name(title_id, chapter_id),
                    }
                }
            },
    {
        let url = match self.chapter_url(title_id, chapter_id) {
            Ok(url) => url,
            Err(e) => {
                return Err(e);
            },
        };
        let dir = chapter_dir(title_id, chapter_id);
        match setup {
            StorageResult::Success => Ok(ChapterStep::Download { dir, url }),
            StorageResult::AlreadyExists => Ok(ChapterStep::AlreadyDownloaded { dir }),
        }
    }

    /// The directory to delete in order to remove chapter `chapter_id` of
    /// the title `title_id` from storage.
    pub fn remove_chapter(&self, title_id: u32, chapter_id: u32) -> (r: Result<
        String,
        LibraryError,
    >)
        ensures
            r is Ok <==> holds_id(self.titles@, title_id),
            r matches Ok(dir) ==> dir@ == chapter_dir_name(title_id, chapter_id),
            r matches Err(e) ==> e == LibraryError::NotFound,
    {
        match self.find_id(title_id) {
            Some(_) => Ok(chapter_dir(title_id, chapter_id)),
            None => Err(LibraryError::NotFound),
        }
    }

    /// The chapters stored for the title at position `k`: none where
    /// `stored` has no entry for it.
    pub open spec fn stored_at(stored: Seq<Vec<u32>>, k: int) -> Seq<u32> {
        if 0 <= k < stored.len() {
            stored[k]@
        } else {
            Seq::empty()
        }
    }

    /// Plans the sweep on `today`: one decision per title, in the titles'
    /// order. `stored[k]` lists the chapter directories found for the title
    /// at position `k`.
    pub fn cleanup(&self, today: &str, stored: &Vec<Vec<u32>>, policy: &Retention) -> (plan: Vec<
        Sweep,
    >)
        ensures
            plan@.len() == self.titles@.len(),
            forall|k: int|
                0 <= k < plan@.len() ==> (#[trigger] plan@[k])@ == sweep_of(
                    days_between(self.titles@[k].last_updated@, today@),
                    Self::stored_at(stored@, k),
                    *policy,
                ),
    {
        let none: Vec<u32> = Vec::new();
        let mut plan: Vec<Sweep> = Vec::new();
        let mut k: usize = 0;
        while k < self.titles.len()
            invariant
                k <= self.titles.len(),
                plan@.len() == k,
                none@.len() == 0,
                forall|j: int|
                    0 <= j < k ==> (#[trigger] plan@[j])@ == sweep_of(
                        days_between(self.titles@[j].last_updated@, today@),
                        Self::stored_at(stored@, j),
                        *policy,
                    ),
            decreases self.titles.len() - k,
        {
            let days = get_duration(self.titles[k].last_updated.as_str(), today);
            let found = if k < stored.len() {
                &stored[k]
            } else {
                &none
            };
            assert(found@ =~= Self::stored_at(stored@, k as int));
            plan.push(sweep_title(days, found, policy));
            k = k + 1;
        }
        plan
    }
}

} // verus!
