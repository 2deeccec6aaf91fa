//! A reader's own shelf: the titles they follow, each with its chapters.

use crate::ids::{exhausted, is_smallest_unused, smallest_unused};
use crate::story::Chapter as StoryChapter;
use crate::text::same_text;
use crate::timestamp::get_time;
use std::collections::HashMap;
use vstd::prelude::*;
use vstd::string::*;

verus! {

/// One chapter of a followed title.
pub struct Chapter {
    /// Description as the page prints it.
    pub t: String,
    /// Trailing path segment of the chapter's address.
    pub s: String,
    /// Number of images on the chapter's page, counted when it was found.
    pub i: u32,
}

/// A chapter as plain text.
pub struct ChapterView {
    pub t: Seq<char>,
    pub s: Seq<char>,
    pub i: u32,
}

impl View for Chapter {
    type V = ChapterView;

    open spec fn view(&self) -> ChapterView {
        ChapterView { t: self.t@, s: self.s@, i: self.i }
    }
}

/// The chapters as plain text, in order.
pub open spec fn chapters_view(chapters: Seq<Chapter>) -> Seq<ChapterView> {
    chapters.map_values(|c: Chapter| c@)
}

/// A followed title.
pub struct Title {
    pub id: u32,
    pub name: String,
    pub url: String,
    /// What every chapter address starts with; it ends with `/`.
    pub chap_prefix: String,
    pub last_chap: u32,
    /// Release date of the newest chapter.
    pub last_updated: String,
    /// When the reader last opened the title.
    pub last_read: String,
    /// Release date seen at the latest scan.
    pub last_scanned: String,
    pub tags: Vec<String>,
    /// Oldest first.
    pub chapters: Vec<Chapter>,
}

/// A title in the shape that readers were first given: without image
/// counts, and with full chapter addresses.
pub struct UserTitle {
    pub id: u32,
    pub title: String,
    pub last_read: String,
    pub last_chap: u32,
    pub url: String,
    pub chapters: Vec<StoryChapter>,
}

/// Why a title could not be added.
#[derive(Clone, Copy, Debug, PartialEq, Eq, Structural)]
pub enum UserError {
    /// Every identifier is taken.
    Full,
}

/// A reader. An empty reader whose `password` holds a message stands for a
/// refused login.
pub struct User {
    pub id: u32,
    pub username: String,
    pub password: String,
    pub titles: Vec<Title>,
    /// Tag name to the identifiers of the titles that carry it.
    pub tags: HashMap<String, Vec<u32>>,
}

/// The identifiers of `titles`, in order.
pub open spec fn title_ids(titles: Seq<Title>) -> Seq<u32> {
    titles.map_values(|t: Title| t.id)
}

/// Whether one of `titles` comes from `url`.
pub open spec fn holds_url(titles: Seq<Title>, url: Seq<char>) -> bool {
    exists|k: int| 0 <= k < titles.len() && (#[trigger] titles[k]).url@ == url
}

/// Whether `name` is one of `names`.
pub open spec fn holds_name(names: Seq<String>, name: Seq<char>) -> bool {
    exists|k: int| 0 <= k < names.len() && (#[trigger] names[k])@ == name
}

/// What adding a title does to a reader, apart from the two dates that
/// are taken from the clock.
pub open spec fn added(
    before: User,
    after: User,
    id: u32,
    name: String,
    url: String,
    chap_prefix: String,
    last_updated: String,
    chapters: Vec<Chapter>,
) -> bool {
    let fresh = after.titles@.last();
    &&& is_smallest_unused(title_ids(before.titles@).to_set(), id)
    &&& after.id == before.id
    &&& after.username == before.username
    &&& after.password == before.password
    &&& after.tags == before.tags
    &&& after.titles@.len() == before.titles@.len() + 1
    &&& after.titles@.drop_last() == before.titles@
    &&& fresh.id == id
    &&& fresh.name == name
    &&& fresh.url == url
    &&& fresh.chap_prefix == chap_prefix
    &&& fresh.last_chap == 0
    &&& fresh.last_updated == last_updated
    &&& fresh.tags@.len() == 0
    &&& fresh.chapters == chapters
}

fn ids_of(titles: &Vec<Title>) -> (ids: Vec<u32>)
    ensures
        ids@ == title_ids(titles@),
{
    let mut ids: Vec<u32> = Vec::new();
    let mut k: usize = 0;
    while k < titles.len()
        invariant
            k <= titles.len(),
            ids@ == title_ids(titles@.take(k as int)),
        decreases titles.len() - k,
    {
        ids.push(titles[k].id);
        assert(title_ids(titles@.take(k + 1)) =~= title_ids(titles@.take(k as int)).push(
            titles@[k as int].id,
        ));
        k = k + 1;
    }
    assert(titles@.take(k as int) =~= titles@);
    ids
}

impl User {
    /// A reader without identity or titles, whose `password` carries
    /// `message`.
    pub fn empty_with_message(message: String) -> (user: User)
        ensures
            user.id == 0,
            user.username@.len() == 0,
            user.password == message,
            user.titles@.len() == 0,
            user.tags@ == Map::<String, Vec<u32>>::empty(),
    {
        User {
            id: 0,
            username: String::new(),
            password: message,
            titles: Vec::new(),
            tags: HashMap::new(),
        }
    }

    /// Registers a reader under the smallest identifier that `user_ids`
    /// leaves free. `None` when `username` is one of `known`, or when no
    /// identifier is left.
    pub fn new(username: String, password: String, known: &Vec<String>, user_ids: &Vec<u32>) -> (r:
        Option<User>)
        ensures
            r is Some <==> !holds_name(known@, username@) && !exhausted(user_ids@.to_set()),
            !holds_name(known@, username@) && user_ids@.len() <= u32::MAX ==> r is Some,
            r matches Some(user) ==> {
                &&& is_smallest_unused(user_ids@.to_set(), user.id)
                &&& user.username == username
                &&& user.password == password
                &&& user.titles@.len() == 0
                &&& user.tags@ == Map::<String, Vec<u32>>::empty()
            },
    {
        let mut k: usize = 0;
        while k < known.len()
            invariant
                k <= known.len(),
                forall|j: int| 0 <= j < k ==> (#[trigger] known@[j])@ != username@,
            decreases known.len() - k,
        {
            if known[k] == username {
                return None;
            }
            k = k + 1;
        }
        match smallest_unused(user_ids) {
            Some(id) => Some(
                User { id, username, password, titles: Vec::new(), tags: HashMap::new() },
            ),
            None => None,
        }
    }

    /// Adds a title that was read on `today`, under the smallest free
    /// identifier, and returns that identifier.
    pub fn add_title_on(
        &mut self,
        name: String,
        url: String,
        chap_prefix: String,
        last_updated: String,
        chapters: Vec<Chapter>,
        today: String,
    ) -> (r: Result<u32, UserError>)
        ensures
            r is Err <==> exhausted(title_ids(old(self).titles@).to_set()),
            old(self).titles@.len() <= u32::MAX ==> r is Ok,
            r is Err ==> *final(self) == *old(self),
            r matches Ok(id) ==> {
                &&& added(
                    *old(self),
                    *final(self),
                    id,
                    name,
                    url,
                    chap_prefix,
                    last_updated,
                    chapters,
                )
                &&& final(self).titles@.last().last_read@ == today@
                &&& final(self).titles@.last().last_scanned@ == today@
            },
    {
        let ids = ids_of(&self.titles);
        match smallest_unused(&ids) {
            Some(id) => {
                let seen = today.clone();
                self.titles.push(
                    Title {
                        id,
                        name,
                        url,
                        chap_prefix,
                        last_chap: 0,
                        last_updated,
                        last_read: today,
                        last_scanned: seen,
                        tags: Vec::new(),
                        chapters,
                    },
                );
                assert(final(self).titles@.drop_last() =~= old(self).titles@);
                Ok(id)
            },
            None => Err(UserError::Full),
        }
    }

    /// Adds a title that is read now: as [`User::add_title_on`], with both
    /// dates taken from the clock.
    pub fn add_title(
        &mut self,
        name: String,
        url: String,
        chap_prefix: String,
        last_updated: String,
        chapters: Vec<Chapter>,
    ) -> (r: Result<u32, UserError>)
        ensures
            r is Err <==> exhausted(title_ids(old(self).titles@).to_set()),
            old(self).titles@.len() <= u32::MAX ==> r is Ok,
            r is Err ==> *final(self) == *old(self),
            r matches Ok(id) ==> {
                &&& added(
                    *old(self),
                    *final(self),
                    id,
                    name,
                    url,
                    chap_prefix,
                    last_updated,
                    chapters,
                )
                &&& final(self).titles@.last().last_read@ == final(self).titles@.last().last_scanned@
            },
    {
        self.add_title_on(name, url, chap_prefix, last_updated, chapters, get_time())
    }

    /// Whether the reader already follows the title at `url`.
    pub fn has_title_url(&mut self, url: &str) -> (found: bool)
        ensures
            found == holds_url(old(self).titles@, url@),
            *final(self) == *old(self),
    {
        let mut k: usize = 0;
        while k < self.titles.len()
            invariant
                k <= self.titles.len(),
                *self == *old(self),
                forall|j: int| 0 <= j < k ==> (#[trigger] self.titles@[j]).url@ != url@,
            decreases self.titles.len() - k,
        {
            if same_text(self.titles[k].url.as_str(), url) {
                return true;
            }
            k = k + 1;
        }
        false
    }

    /// Drops every title whose identifier is `id`; the others keep their
    /// order.
    pub fn remove_title(&mut self, id: u32)
        ensures
            final(self).titles@ == old(self).titles@.filter(|t: Title| t.id != id),
            final(self).id == old(self).id,
            final(self).username == old(self).username,
            final(self).password == old(self).password,
            final(self).tags == old(self).tags,
    {
        let ghost before = self.titles@;
        let ghost keep = |t: Title| t.id != id;
        let ghost mut done: int = 0;
        let mut k: usize = 0;
        proof {
            reveal(Seq::filter);
            assert(before.take(0).filter(keep) =~= self.titles@.take(0));
        }
        while k < self.titles.len()
            invariant
                before == old(self).titles@,
                keep == (|t: Title| t.id != id),
                k <= self.titles.len(),
                0 <= done <= before.len(),
                self.titles@.take(k as int) == before.take(done).filter(keep),
                self.titles@.skip(k as int) == before.skip(done),
                self.id == old(self).id,
                self.username == old(self).username,
                self.password == old(self).password,
                self.tags == old(self).tags,
            decreases self.titles.len() - k,
        {
            proof {
                reveal(Seq::filter);
                assert(self.titles@.skip(k as int)[0] == before.skip(done)[0]);
                assert(self.titles@.skip(k as int).len() == before.skip(done).len());
                assert(before.take(done + 1).drop_last() =~= before.take(done));
                assert(before.take(done + 1).last() == before[done]);
            }
            let ghost current = self.titles@;
            if self.titles[k].id == id {
                self.titles.remove(k);
                proof {
                    assert(self.titles@.take(k as int) =~= current.take(k as int));
                    assert(self.titles@.skip(k as int) =~= current.skip(k as int).skip(1));
                    assert(before.skip(done + 1) =~= before.skip(done).skip(1));
                    done = done + 1;
                }
            } else {
                proof {
                    assert(current.take(k + 1) =~= current.take(k as int).push(current[k as int]));
                    assert(current.skip(k + 1) =~= current.skip(k as int).skip(1));
                    assert(before.skip(done + 1) =~= before.skip(done).skip(1));
                    done = done + 1;
                }
                k = k + 1;
            }
        }
        proof {
            assert(self.titles@.skip(k as int).len() == 0);
            assert(before.skip(done).len() == 0);
            assert(before.take(done) =~= before);
            assert(self.titles@.take(k as int) =~= self.titles@);
        }
    }
}

} // verus!
