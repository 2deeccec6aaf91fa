//! The storage layout: one directory per title, one per chapter inside it,
//! all named by their identifiers; and what the outcome of a file-system
//! step means to the catalogue.

use crate::text::{decimal, id_name, number_name, parse_id, parsed_id};
use vstd::prelude::*;
use vstd::string::*;

verus! {

/// Directory that holds one directory per title.
pub const TITLE_PATH: &'static str = "./public/titles";

/// Directory that holds the covers. It lies beside the title directories, so
/// a cover outlives the removal of its title's directory.
pub const COVER_PATH: &'static str = "./public/covers";

/// Name of the directory of the title `id`.
pub open spec fn title_dir_name(id: u32) -> Seq<char> {
    TITLE_PATH@ + "/"@ + decimal(id as nat)
}

/// Name of the directory of chapter `chapter_id` of title `title_id`.
pub open spec fn chapter_dir_name(title_id: u32, chapter_id: u32) -> Seq<char> {
    title_dir_name(title_id) + "/"@ + decimal(chapter_id as nat)
}

/// Name of the file of image `index` in the chapter directory `dir`.
pub open spec fn image_file_name(dir: Seq<char>, index: nat) -> Seq<char> {
    dir + "/"@ + decimal(index) + ".jpeg"@
}

/// Name of the cover file of the title `id`.
pub open spec fn cover_file_name(id: u32) -> Seq<char> {
    COVER_PATH@ + "/"@ + decimal(id as nat) + ".jpeg"@
}

/// Name of the document that holds the whole library.
pub open spec fn library_file_name() -> Seq<char> {
    TITLE_PATH@ + "/library.json"@
}

/// The directory of the title `id`.
pub fn title_dir(id: u32) -> (path: String)
    ensures
        path@ == title_dir_name(id),
{
    let mut path = String::from_str(TITLE_PATH);
    path.append("/");
    path.append(id_name(id).as_str());
    path
}

/// The directory of chapter `chapter_id` of title `title_id`.
pub fn chapter_dir(title_id: u32, chapter_id: u32) -> (path: String)
    ensures
        path@ == chapter_dir_name(title_id, chapter_id),
{
    let mut path = title_dir(title_id);
    path.append("/");
    path.append(id_name(chapter_id).as_str());
    path
}

/// The file of image `index` in the chapter directory `dir`.
pub fn image_path(dir: &str, index: usize) -> (path: String)
    ensures
        path@ == image_file_name(dir@, index as nat),
{
    let mut path = String::from_str(dir);
    path.append("/");
    path.append(number_name(index as u64).as_str());
    path.append(".jpeg");
    path
}

/// The cover file of the title `id`.
pub fn cover_path(id: u32) -> (path: String)
    ensures
        path@ == cover_file_name(id),
{
    let mut path = String::from_str(COVER_PATH);
    path.append("/");
    path.append(id_name(id).as_str());
    path.append(".jpeg");
    path
}

/// The document that holds the whole library.
pub fn library_path() -> (path: String)
    ensures
        path@ == library_file_name(),
{
    let mut path = String::from_str(TITLE_PATH);
    path.append("/library.json");
    path
}

/// How a file-system step ended, as far as the catalogue cares.
#[derive(Clone, Copy, Debug, PartialEq, Eq, Structural)]
pub enum IoStatus {
    Done,
    AlreadyExists,
    NotFound,
    Failed,
}

/// How making a directory ended when it did not fail.
#[derive(Clone, Copy, Debug, PartialEq, Eq, Structural)]
pub enum StorageResult {
    Success,
    AlreadyExists,
}

/// Why a storage step counts as failed.
#[derive(Clone, Copy, Debug, PartialEq, Eq, Structural)]
pub enum StorageError {
    /// The file system refused the step.
    Failed,
    /// An entry that should be named by a number is not; the value is the
    /// entry's position in the listing.
    NotNumeric(usize),
}

/// Judges the making of a directory: that it was there already is no
/// failure.
pub fn created(status: IoStatus) -> (r: Result<StorageResult, StorageError>)
    ensures
        r == match status {
            IoStatus::Done => Ok::<StorageResult, StorageError>(StorageResult::Success),
            IoStatus::AlreadyExists => Ok(StorageResult::AlreadyExists),
            _ => Err(StorageError::Failed),
        },
{
    match status {
        IoStatus::Done => Ok(StorageResult::Success),
        IoStatus::AlreadyExists => Ok(StorageResult::AlreadyExists),
        _ => Err(StorageError::Failed),
    }
}

/// Judges the removal or the reading of a directory: that it was not
/// there is no failure. The result says whether it was there.
pub fn present(status: IoStatus) -> (r: Result<bool, StorageError>)
    ensures
        r == match status {
            IoStatus::Done => Ok::<bool, StorageError>(true),
            IoStatus::NotFound => Ok(false),
            _ => Err(StorageError::Failed),
        },
{
    match status {
        IoStatus::Done => Ok(true),
        IoStatus::NotFound => Ok(false),
        _ => Err(StorageError::Failed),
    }
}

/// One entry of a directory.
pub struct DirEntry {
    pub name: String,
    pub is_dir: bool,
}

/// Whether every one of `names` denotes an identifier.
pub open spec fn all_numeric(names: Seq<String>) -> bool {
    forall|k: int| 0 <= k < names.len() ==> parsed_id((#[trigger] names[k])@) is Some
}

/// The first of `names` that denotes no identifier.
pub open spec fn first_bad_name(names: Seq<String>, k: int) -> bool {
    &&& 0 <= k < names.len()
    &&& parsed_id(names[k]@) is None
    &&& forall|j: int| 0 <= j < k ==> parsed_id((#[trigger] names[j])@) is Some
}

/// Reads directory names as identifiers, in the order given. A name that is
/// no number is reported with its position.
pub fn read_directory_names(names: &Vec<String>) -> (r: Result<Vec<u32>, StorageError>)
    ensures
        r is Ok <==> all_numeric(names@),
        r matches Ok(ids) ==> ids@.len() == names@.len() && forall|k: int|
            0 <= k < ids@.len() ==> Some(#[trigger] ids@[k]) == parsed_id(names@[k]@),
        r matches Err(e) ==> e matches StorageError::NotNumeric(k) && first_bad_name(
            names@,
            k as int,
        ),
{
    let mut ids: Vec<u32> = Vec::new();
    let mut k: usize = 0;
    while k < names.len()
        invariant
            k <= names.len(),
            ids@.len() == k,
            forall|j: int| 0 <= j < k ==> Some(#[trigger] ids@[j]) == parsed_id(names@[j]@),
            forall|j: int| 0 <= j < k ==> parsed_id((#[trigger] names@[j])@) is Some,
        decreases names.len() - k,
    {
        match parse_id(names[k].as_str()) {
            Some(id) => {
                ids.push(id);
            },
            None => {
                assert(parsed_id(names@[k as int]@) is None);
                return Err(StorageError::NotNumeric(k));
            },
        }
        k = k + 1;
    }
    Ok(ids)
}

/// The identifiers of the directories among `entries`, in order; `None`
/// when a directory's name is no number.
pub open spec fn chapter_ids(entries: Seq<DirEntry>) -> Option<Seq<u32>>
    decreases entries.len(),
{
    if entries.len() == 0 {
        Some(Seq::empty())
    } else {
        match chapter_ids(entries.drop_last()) {
            None => None,
            Some(ids) => if !entries.last().is_dir {
                Some(ids)
            } else {
                match parsed_id(entries.last().name@) {
                    Some(id) => Some(ids.push(id)),
                    None => None,
                }
            },
        }
    }
}

/// Whether the entry at `k` is a directory whose name is no number.
pub open spec fn bad_directory(entries: Seq<DirEntry>, k: int) -> bool {
    &&& 0 <= k < entries.len()
    &&& entries[k].is_dir
    &&& parsed_id(entries[k].name@) is None
}

/// The chapters that a title's directory holds: its sub-directories, read
/// as identifiers. Plain files are passed over; a directory whose name is
/// no number is an error.
pub fn get_chapters(entries: &Vec<DirEntry>) -> (r: Result<Vec<u32>, StorageError>)
    ensures
        r matches Ok(ids) ==> chapter_ids(entries@) == Some(ids@),
        r is Err ==> chapter_ids(entries@) is None,
        r matches Err(e) ==> e matches StorageError::NotNumeric(k) && bad_directory(
            entries@,
            k as int,
        ),
{
    let mut ids: Vec<u32> = Vec::new();
    let mut k: usize = 0;
    assert(entries@.take(0) =~= Seq::empty());
    while k < entries.len()
        invariant
            k <= entries.len(),
            chapter_ids(entries@.take(k as int)) == Some(ids@),
        decreases entries.len() - k,
    {
        proof {
            assert(entries@.take(k + 1).drop_last() =~= entries@.take(k as int));
            assert(entries@.take(k + 1).last() == entries@[k as int]);
        }
        if entries[k].is_dir {
            match parse_id(entries[k].name.as_str()) {
                Some(id) => {
                    ids.push(id);
                },
                None => {
                    proof {
                        lemma_chapter_ids_prefix(entries@, k + 1);
                    }
                    return Err(StorageError::NotNumeric(k));
                },
            }
        }
        k = k + 1;
    }
    assert(entries@.take(k as int) =~= entries@);
    Ok(ids)
}

/// A listing with an unreadable prefix is unreadable.
pub proof fn lemma_chapter_ids_prefix(entries: Seq<DirEntry>, k: int)
    requires
        0 <= k <= entries.len(),
        chapter_ids(entries.take(k)) is None,
    ensures
        chapter_ids(entries) is None,
    decreases entries.len(),
{
    if k == entries.len() {
        assert(entries.take(k) =~= entries);
    } else {
        assert(entries.drop_last().take(k) =~= entries.take(k));
        lemma_chapter_ids_prefix(entries.drop_last(), k);
    }
}

/// Number of plain files among `entries`.
pub open spec fn file_count(entries: Seq<DirEntry>) -> nat {
    entries.filter(|e: DirEntry| !e.is_dir).len()
}

/// Number of images that a chapter's directory holds: its plain files. A
/// count that `u32` cannot hold is given as `u32::MAX`.
pub fn get_num_images(entries: &Vec<DirEntry>) -> (count: u32)
    ensures
        count == if file_count(entries@) <= u32::MAX {
            file_count(entries@)
        } else {
            u32::MAX as nat
        },
{
    let ghost is_file = |e: DirEntry| !e.is_dir;
    let mut count: usize = 0;
    let mut k: usize = 0;
    proof {
        reveal(Seq::filter);
        assert(entries@.take(0) =~= Seq::empty());
    }
    while k < entries.len()
        invariant
            k <= entries.len(),
            is_file == (|e: DirEntry| !e.is_dir),
            count == entries@.take(k as int).filter(is_file).len(),
            count <= k,
        decreases entries.len() - k,
    {
        proof {
            reveal(Seq::filter);
            assert(entries@.take(k + 1).drop_last() =~= entries@.take(k as int));
            assert(entries@.take(k + 1).last() == entries@[k as int]);
        }
        if !entries[k].is_dir {
            count = count + 1;
        }
        k = k + 1;
    }
    assert(entries@.take(k as int) =~= entries@);
    if count > 4294967295 {
        4294967295
    } else {
        count as u32
    }
}

} // verus!
