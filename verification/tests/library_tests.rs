use mangashelf::library::{sweep_title, ChapterStep, Library, LibraryError, Retention, Sweep};
use mangashelf::storage::StorageResult;
use mangashelf::story::{Chapter, SystemTitle};
use mangashelf::web::{Link, Page};

fn chapter(n: u32) -> Chapter {
    Chapter { desc: format!("Chapter {n}"), url: format!("https://chap.example/t/chapter-{n}") }
}

fn title(id: u32, url: &str, chapters: u32, last_updated: &str) -> SystemTitle {
    SystemTitle {
        id,
        title: format!("Title {id}"),
        last_updated: last_updated.to_string(),
        url: url.to_string(),
        chapters: (1..=chapters).map(chapter).collect(),
    }
}

fn library(ids: &[u32]) -> Library {
    let titles = ids.iter().map(|id| title(*id, &format!("https://src.example/{id}"), 2, "2024-01-01")).collect();
    Library::new(titles).unwrap()
}

fn link(n: u32) -> Link {
    Link { desc: format!("Chapter {n}"), href: format!("https://chap.example/t/chapter-{n}") }
}

fn page(name: &str, chapters: u32) -> Page {
    Page {
        title: name.to_string(),
        cover_url: "https://img.example/c.jpg".to_string(),
        last_updated: "2024-02-02".to_string(),
        chap_prefix: "https://chap.example/t/".to_string(),
        links: (1..=chapters).map(link).collect(),
    }
}

fn ids(library: &Library) -> Vec<u32> {
    library.titles.iter().map(|t| t.id).collect()
}

fn policy() -> Retention {
    Retention { stale_after: 30, max_chapters: 5 }
}

#[test]
fn new_library_needs_distinct_titles() {
    assert!(Library::new(Vec::new()).is_some());
    assert!(Library::new(vec![title(0, "a", 0, "2024-01-01"), title(1, "b", 0, "2024-01-01")]).is_some());
    assert!(Library::new(vec![title(0, "a", 0, "2024-01-01"), title(0, "b", 0, "2024-01-01")]).is_none());
    assert!(Library::new(vec![title(0, "a", 0, "2024-01-01"), title(1, "a", 0, "2024-01-01")]).is_none());
}

#[test]
fn next_id_fills_the_gap() {
    assert_eq!(library(&[0, 1, 3]).get_new_id(), Some(2));
}

#[test]
fn next_id_edge_cases() {
    assert_eq!(library(&[]).get_new_id(), Some(0));
    assert_eq!(library(&[0]).get_new_id(), Some(1));
    assert_eq!(library(&[1, 2]).get_new_id(), Some(0));
    assert_eq!(library(&[2, 0, 1]).get_new_id(), Some(3));
    assert_eq!(library(&[u32::MAX, 0]).get_new_id(), Some(1));
}

#[test]
fn lookup_by_id_and_url() {
    let lib = library(&[0, 1, 3]);
    assert_eq!(lib.get_title_by_id(3).map(|t| t.title.as_str()), Some("Title 3"));
    assert!(lib.get_title_by_id(2).is_none());
    assert_eq!(lib.get_title_by_url("https://src.example/1").map(|t| t.id), Some(1));
    assert!(lib.get_title_by_url("https://src.example/2").is_none());
}

#[test]
fn add_title_takes_smallest_free_id() {
    let mut lib = library(&[0, 1, 3]);
    let added = lib.add_title_on("https://src.example/new", &page("New", 3), "2024-03-04".to_string()).unwrap();
    assert_eq!(added.id, 2);
    assert_eq!(added.title, "New");
    assert_eq!(added.url, "https://src.example/new");
    assert_eq!(added.last_updated, "2024-03-04");
    assert_eq!(added.chapters.len(), 3);
    assert_eq!(added.chapters[0].desc, "Chapter 1");
    assert_eq!(added.chapters[2].url, "https://chap.example/t/chapter-3");
    assert_eq!(ids(&lib), vec![0, 1, 3, 2]);
    assert_eq!(lib.titles[3].title, "New");
    assert_eq!(lib.titles[3].chapters.len(), 3);
}

#[test]
fn add_title_twice_returns_the_existing_entry() {
    let mut lib = library(&[0, 1]);
    let again = lib.add_title_on("https://src.example/1", &page("Other", 9), "2024-03-04".to_string()).unwrap();
    assert_eq!(again.id, 1);
    assert_eq!(again.title, "Title 1");
    assert_eq!(again.last_updated, "2024-01-01");
    assert_eq!(again.chapters.len(), 2);
    assert_eq!(ids(&lib), vec![0, 1]);
}

#[test]
fn add_title_now_dates_it_today() {
    let mut lib = library(&[]);
    let before = mangashelf::timestamp::get_time();
    let added = lib.add_title("https://src.example/a", &page("A", 1)).unwrap();
    let after = mangashelf::timestamp::get_time();
    assert_eq!(added.id, 0);
    assert!(added.last_updated == before || added.last_updated == after);
    assert_eq!(ids(&lib), vec![0]);
}

#[test]
fn readding_removed_url_gets_fresh_id() {
    let mut lib = library(&[0, 1, 2]);
    assert_eq!(lib.remove_title(1), Ok(()));
    let added = lib.add_title_on("https://src.example/1", &page("Back", 1), "2024-03-04".to_string()).unwrap();
    assert_eq!(added.id, 1);
    assert_eq!(added.title, "Back");
    assert_eq!(ids(&lib), vec![0, 2, 1]);
}

#[test]
fn remove_title_keeps_the_others_in_order() {
    let mut lib = library(&[5, 0, 3, 1]);
    assert_eq!(lib.remove_title(0), Ok(()));
    assert_eq!(ids(&lib), vec![5, 3, 1]);
    assert!(lib.get_title_by_id(0).is_none());
}

#[test]
fn remove_unknown_title_is_not_found_and_changes_nothing() {
    let mut lib = library(&[0, 1, 3]);
    assert_eq!(lib.remove_title(2), Err(LibraryError::NotFound));
    assert_eq!(ids(&lib), vec![0, 1, 3]);
    assert_eq!(lib.titles[2].title, "Title 3");
    assert_eq!(lib.titles[2].chapters.len(), 2);
}

#[test]
fn update_title_appends_new_chapters_only() {
    let mut lib = library(&[0, 1]);
    let mut listing: Vec<Link> = (1..=4).map(link).collect();
    listing[0].desc = "Renamed".to_string();
    assert_eq!(lib.update_title(1, &listing, "2024-05-05".to_string()), Ok(true));
    let updated = lib.get_title_by_id(1).unwrap();
    assert_eq!(updated.chapters.len(), 4);
    assert_eq!(updated.chapters[0].desc, "Chapter 1");
    assert_eq!(updated.chapters[2].desc, "Chapter 3");
    assert_eq!(updated.chapters[3].url, "https://chap.example/t/chapter-4");
    assert_eq!(updated.last_updated, "2024-05-05");
    assert_eq!(ids(&lib), vec![0, 1]);
    assert_eq!(lib.titles[0].chapters.len(), 2);
    assert_eq!(lib.titles[0].last_updated, "2024-01-01");
}

#[test]
fn update_title_ends_with_as_many_chapters_as_listed() {
    let mut lib = library(&[0, 1]);
    let listing: Vec<Link> = (1..=7).map(link).collect();
    assert_eq!(lib.update_title(0, &listing, "2024-05-05".to_string()), Ok(true));
    assert_eq!(lib.titles[0].chapters.len(), listing.len());
    assert_eq!(lib.titles[0].chapters[6].desc, "Chapter 7");
}

#[test]
fn add_title_now_with_held_address_returns_the_held_title() {
    let mut lib = library(&[0, 1]);
    let again = lib.add_title("https://src.example/0", &page("Other", 9)).unwrap();
    assert_eq!(again.id, 0);
    assert_eq!(again.title, "Title 0");
    assert_eq!(again.url, "https://src.example/0");
    assert_eq!(again.last_updated, "2024-01-01");
    assert_eq!(again.chapters.len(), 2);
    assert_eq!(ids(&lib), vec![0, 1]);
}

#[test]
fn update_title_without_new_chapters_changes_nothing() {
    let mut lib = library(&[0, 1]);
    let listing: Vec<Link> = (1..=2).map(link).collect();
    assert_eq!(lib.update_title(0, &listing, "2024-05-05".to_string()), Ok(false));
    assert_eq!(lib.titles[0].last_updated, "2024-01-01");
    assert_eq!(lib.titles[0].chapters.len(), 2);
    assert_eq!(lib.update_title(0, &Vec::new(), "2024-05-05".to_string()), Ok(false));
    assert_eq!(lib.titles[0].chapters.len(), 2);
}

#[test]
fn update_unknown_title_is_not_found() {
    let mut lib = library(&[0]);
    assert_eq!(lib.update_title(7, &Vec::new(), "2024-05-05".to_string()), Err(LibraryError::NotFound));
}

#[test]
fn chapter_url_lookup() {
    let lib = library(&[0, 4]);
    assert_eq!(lib.chapter_url(4, 1), Ok("https://chap.example/t/chapter-2".to_string()));
    assert_eq!(lib.chapter_url(4, 2), Err(LibraryError::NoChapter));
    assert_eq!(lib.chapter_url(1, 0), Err(LibraryError::NotFound));
}

#[test]
fn add_chapter_downloads_into_fresh_directory() {
    let lib = library(&[0, 4]);
    match lib.add_chapter(4, 0, StorageResult::Success) {
        Ok(ChapterStep::Download { dir, url }) => {
            assert_eq!(dir, "./public/titles/4/0");
            assert_eq!(url, "https://chap.example/t/chapter-1");
        }
        _ => panic!("expected a download"),
    }
}

#[test]
fn add_chapter_skips_existing_directory() {
    let lib = library(&[0, 4]);
    match lib.add_chapter(4, 1, StorageResult::AlreadyExists) {
        Ok(ChapterStep::AlreadyDownloaded { dir }) => assert_eq!(dir, "./public/titles/4/1"),
        _ => panic!("expected no download"),
    }
}

#[test]
fn add_chapter_errors() {
    let lib = library(&[0]);
    assert!(matches!(lib.add_chapter(3, 0, StorageResult::Success), Err(LibraryError::NotFound)));
    assert!(matches!(lib.add_chapter(0, 2, StorageResult::Success), Err(LibraryError::NoChapter)));
    assert!(matches!(lib.add_chapter(0, u32::MAX, StorageResult::AlreadyExists), Err(LibraryError::NoChapter)));
}

#[test]
fn remove_chapter_names_the_directory() {
    let lib = library(&[2]);
    assert_eq!(lib.remove_chapter(2, 9), Ok("./public/titles/2/9".to_string()));
    assert_eq!(lib.remove_chapter(3, 9), Err(LibraryError::NotFound));
}

#[test]
fn stale_title_is_cleared() {
    assert!(matches!(sweep_title(Some(31), &vec![0, 1], &policy()), Sweep::Clear));
    assert!(matches!(sweep_title(Some(30), &vec![0, 1], &policy()), Sweep::Clear));
    assert!(matches!(sweep_title(Some(31), &vec![0, 1, 2, 3, 4, 5, 6, 7], &policy()), Sweep::Clear));
}

#[test]
fn recent_title_is_kept() {
    assert!(matches!(sweep_title(Some(29), &vec![0, 1], &policy()), Sweep::Keep));
    assert!(matches!(sweep_title(Some(29), &vec![0, 1, 2, 3, 4], &policy()), Sweep::Keep));
    assert!(matches!(sweep_title(Some(-3), &Vec::new(), &policy()), Sweep::Keep));
}

#[test]
fn eight_chapters_with_cap_five_lose_the_three_oldest() {
    let stored = vec![12, 3, 7, 5, 10, 4, 11, 6];
    match sweep_title(Some(29), &stored, &policy()) {
        Sweep::Prune(gone) => {
            assert_eq!(gone, vec![3, 4, 5]);
            let mut kept: Vec<u32> = stored.iter().copied().filter(|id| !gone.contains(id)).collect();
            kept.sort();
            assert_eq!(kept, vec![6, 7, 10, 11, 12]);
        }
        _ => panic!("expected pruning"),
    }
}

#[test]
fn unreadable_date_is_reported() {
    assert!(matches!(sweep_title(None, &vec![0, 1, 2, 3, 4, 5, 6], &policy()), Sweep::BadDate));
}

#[test]
fn cleanup_plans_one_step_per_title() {
    let titles = vec![
        title(0, "a", 1, "2024-01-01"),
        title(1, "b", 1, "2024-01-02"),
        title(2, "c", 1, "2024-01-20"),
        title(3, "d", 1, "soon"),
        title(4, "e", 1, "2024-01-30"),
    ];
    let lib = Library::new(titles).unwrap();
    let stored = vec![vec![0, 1], vec![1, 0], vec![9, 8, 7, 6, 5, 4, 3], vec![0]];
    let plan = lib.cleanup("2024-01-31", &stored, &policy());
    assert_eq!(plan.len(), 5);
    assert!(matches!(plan[0], Sweep::Clear));
    assert!(matches!(plan[1], Sweep::Keep));
    match &plan[2] {
        Sweep::Prune(gone) => assert_eq!(gone, &vec![3, 4]),
        _ => panic!("expected pruning"),
    }
    assert!(matches!(plan[3], Sweep::BadDate));
    assert!(matches!(plan[4], Sweep::Keep));
}
