//! Titles as the shared library keeps them.

use crate::user::UserTitle;
use vstd::prelude::*;

verus! {

/// One chapter: what the page calls it, and its full address.
pub struct Chapter {
    pub desc: String,
    pub url: String,
}

/// A chapter as plain text.
pub struct ChapterView {
    pub desc: Seq<char>,
    pub url: Seq<char>,
}

impl View for Chapter {
    type V = ChapterView;

    open spec fn view(&self) -> ChapterView {
        ChapterView { desc: self.desc@, url: self.url@ }
    }
}

/// The chapters as plain text, in order.
pub open spec fn chapters_view(chapters: Seq<Chapter>) -> Seq<ChapterView> {
    chapters.map_values(|c: Chapter| c@)
}

/// A title of the shared library.
pub struct SystemTitle {
    pub id: u32,
    pub title: String,
    /// ISO date of the latest scan that found the title changed.
    pub last_updated: String,
    pub url: String,
    /// Oldest first.
    pub chapters: Vec<Chapter>,
}

/// A title as plain values.
pub struct SystemTitleView {
    pub id: u32,
    pub title: Seq<char>,
    pub last_updated: Seq<char>,
    pub url: Seq<char>,
    pub chapters: Seq<ChapterView>,
}

impl View for SystemTitle {
    type V = SystemTitleView;

    open spec fn view(&self) -> SystemTitleView {
        SystemTitleView {
            id: self.id,
            title: self.title@,
            last_updated: self.last_updated@,
            url: self.url@,
            chapters: chapters_view(self.chapters@),
        }
    }
}

impl Chapter {
    /// A copy with the same text.
    pub fn duplicate(&self) -> (copy: Chapter)
        ensures
            copy@ == self@,
    {
        Chapter { desc: self.desc.clone(), url: self.url.clone() }
    }
}

impl SystemTitle {
    /// A copy with the same identifier, text and chapters.
    pub fn duplicate(&self) -> (copy: SystemTitle)
        ensures
            copy@ == self@,
    {
        let mut chapters: Vec<Chapter> = Vec::new();
        let mut k: usize = 0;
        while k < self.chapters.len()
            invariant
                k <= self.chapters.len(),
                chapters@.len() == k,
                forall|j: int| 0 <= j < k ==> (#[trigger] chapters@[j])@ == self.chapters@[j]@,
            decreases self.chapters.len() - k,
        {
            chapters.push(self.chapters[k].duplicate());
            k = k + 1;
        }
        assert(chapters_view(chapters@) =~= chapters_view(self.chapters@));
        SystemTitle {
            id: self.id,
            title: self.title.clone(),
            last_updated: self.last_updated.clone(),
            url: self.url.clone(),
            chapters,
        }
    }

    /// The title as a reader first sees it: unread, at chapter 0.
    pub fn into_usertitle(self) -> (r: UserTitle)
        ensures
            r.id == self.id,
            r.title == self.title,
            r.last_read@.len() == 0,
            r.last_chap == 0,
            r.url == self.url,
            r.chapters == self.chapters,
    {
        UserTitle {
            id: self.id,
            title: self.title,
            last_read: String::new(),
            last_chap: 0,
            url: self.url,
            chapters: self.chapters,
        }
    }
}

} // verus!
