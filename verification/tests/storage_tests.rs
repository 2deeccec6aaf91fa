use mangashelf::storage::{
    chapter_dir, cover_path, created, get_chapters, get_num_images, image_path, library_path,
    present, read_directory_names, title_dir, DirEntry, IoStatus, StorageError, StorageResult,
    COVER_PATH, TITLE_PATH,
};

fn entry(name: &str, is_dir: bool) -> DirEntry {
    DirEntry { name: name.to_string(), is_dir }
}

#[test]
fn layout_paths() {
    assert_eq!(TITLE_PATH, "./public/titles");
    assert_eq!(COVER_PATH, "./public/covers");
    assert_eq!(title_dir(0), "./public/titles/0");
    assert_eq!(title_dir(42), "./public/titles/42");
    assert_eq!(chapter_dir(3, 17), "./public/titles/3/17");
    assert_eq!(image_path("./public/titles/3/17", 0), "./public/titles/3/17/0.jpeg");
    assert_eq!(image_path(&chapter_dir(1, 2), 120), "./public/titles/1/2/120.jpeg");
    assert_eq!(cover_path(9), "./public/covers/9.jpeg");
    assert_eq!(library_path(), "./public/titles/library.json");
}

#[test]
fn cover_lies_outside_the_title_directory() {
    assert!(!cover_path(5).starts_with(&title_dir(5)));
}

#[test]
fn ensure_dir_twice_succeeds_both_times() {
    assert_eq!(created(IoStatus::Done), Ok(StorageResult::Success));
    assert_eq!(created(IoStatus::AlreadyExists), Ok(StorageResult::AlreadyExists));
}

#[test]
fn creation_failures_are_reported() {
    assert_eq!(created(IoStatus::NotFound), Err(StorageError::Failed));
    assert_eq!(created(IoStatus::Failed), Err(StorageError::Failed));
}

#[test]
fn missing_directory_is_no_failure() {
    assert_eq!(present(IoStatus::Done), Ok(true));
    assert_eq!(present(IoStatus::NotFound), Ok(false));
    assert_eq!(present(IoStatus::AlreadyExists), Err(StorageError::Failed));
    assert_eq!(present(IoStatus::Failed), Err(StorageError::Failed));
}

#[test]
fn directory_names_are_ids() {
    let names = vec!["3".to_string(), "0".to_string(), "12".to_string()];
    assert_eq!(read_directory_names(&names), Ok(vec![3, 0, 12]));
    assert_eq!(read_directory_names(&Vec::new()), Ok(Vec::new()));
}

#[test]
fn non_numeric_name_is_reported() {
    let names = vec!["3".to_string(), "tmp".to_string(), "x".to_string()];
    assert_eq!(read_directory_names(&names), Err(StorageError::NotNumeric(1)));
}

#[test]
fn chapters_are_the_sub_directories() {
    let entries = vec![entry("2", true), entry("notes.txt", false), entry("0", true), entry("7", false)];
    assert_eq!(get_chapters(&entries), Ok(vec![2, 0]));
    assert_eq!(get_chapters(&Vec::new()), Ok(Vec::new()));
}

#[test]
fn non_numeric_directory_is_reported() {
    let entries = vec![entry("2", true), entry("readme", false), entry("old", true)];
    assert_eq!(get_chapters(&entries), Err(StorageError::NotNumeric(2)));
}

#[test]
fn images_are_the_plain_files() {
    let entries = vec![entry("0.jpeg", false), entry("1.jpeg", false), entry("thumbs", true)];
    assert_eq!(get_num_images(&entries), 2);
    assert_eq!(get_num_images(&Vec::new()), 0);
}
