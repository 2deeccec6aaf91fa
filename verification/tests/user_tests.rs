use mangashelf::story::{Chapter as StoryChapter, SystemTitle};
use mangashelf::user::{Chapter, User, UserError};

fn chapters(n: u32) -> Vec<Chapter> {
    (1..=n).map(|k| Chapter { t: format!("Chapter {k}"), s: format!("chapter-{k}"), i: k }).collect()
}

fn add(user: &mut User, url: &str) -> Result<u32, UserError> {
    user.add_title(
        "Name".to_string(),
        url.to_string(),
        "https://chap.example/t/".to_string(),
        "2024-01-01".to_string(),
        chapters(2),
    )
}

#[test]
fn empty_user_carries_the_message() {
    let user = User::empty_with_message("Wrong Password".to_string());
    assert_eq!(user.id, 0);
    assert_eq!(user.username, "");
    assert_eq!(user.password, "Wrong Password");
    assert!(user.titles.is_empty());
    assert!(user.tags.is_empty());
}

#[test]
fn new_user_takes_smallest_free_id() {
    let known = vec!["ann".to_string(), "bob".to_string()];
    let user = User::new("cy".to_string(), "pw".to_string(), &known, &vec![0, 1, 3]).unwrap();
    assert_eq!(user.id, 2);
    assert_eq!(user.username, "cy");
    assert_eq!(user.password, "pw");
    assert!(user.titles.is_empty());
    assert!(user.tags.is_empty());
    let first = User::new("ann".to_string(), "pw".to_string(), &Vec::new(), &Vec::new()).unwrap();
    assert_eq!(first.id, 0);
}

#[test]
fn new_user_with_taken_name_is_refused() {
    let known = vec!["ann".to_string(), "bob".to_string()];
    assert!(User::new("bob".to_string(), "pw".to_string(), &known, &vec![0, 1]).is_none());
}

#[test]
fn add_title_allocates_ids_in_order() {
    let mut user = User::empty_with_message(String::new());
    assert_eq!(add(&mut user, "a"), Ok(0));
    assert_eq!(add(&mut user, "b"), Ok(1));
    assert_eq!(add(&mut user, "c"), Ok(2));
    user.remove_title(1);
    assert_eq!(add(&mut user, "d"), Ok(1));
    let ids: Vec<u32> = user.titles.iter().map(|t| t.id).collect();
    assert_eq!(ids, vec![0, 2, 1]);
}

#[test]
fn add_title_fills_every_field() {
    let mut user = User::empty_with_message(String::new());
    let before = mangashelf::timestamp::get_time();
    add(&mut user, "https://src.example/a").unwrap();
    let after = mangashelf::timestamp::get_time();
    let title = &user.titles[0];
    assert_eq!(title.name, "Name");
    assert_eq!(title.url, "https://src.example/a");
    assert_eq!(title.chap_prefix, "https://chap.example/t/");
    assert_eq!(title.last_chap, 0);
    assert_eq!(title.last_updated, "2024-01-01");
    assert!(title.last_read == before || title.last_read == after);
    assert_eq!(title.last_scanned, title.last_read);
    assert!(title.tags.is_empty());
    assert_eq!(title.chapters.len(), 2);
    assert_eq!(title.chapters[1].s, "chapter-2");
    assert_eq!(title.chapters[1].i, 2);
}

#[test]
fn add_title_on_a_given_day() {
    let mut user = User::empty_with_message(String::new());
    let id = user.add_title_on(
        "N".to_string(),
        "u".to_string(),
        "p/".to_string(),
        "2024-01-01".to_string(),
        Vec::new(),
        "2024-02-03".to_string(),
    );
    assert_eq!(id, Ok(0));
    assert_eq!(user.titles[0].last_read, "2024-02-03");
    assert_eq!(user.titles[0].last_scanned, "2024-02-03");
}

#[test]
fn has_title_url_finds_exact_address() {
    let mut user = User::empty_with_message(String::new());
    add(&mut user, "https://src.example/a").unwrap();
    add(&mut user, "https://src.example/b").unwrap();
    assert!(user.has_title_url("https://src.example/b"));
    assert!(!user.has_title_url("https://src.example/"));
    assert!(!user.has_title_url(""));
    assert_eq!(user.titles.len(), 2);
}

#[test]
fn remove_title_drops_every_match() {
    let mut user = User::empty_with_message("m".to_string());
    add(&mut user, "a").unwrap();
    add(&mut user, "b").unwrap();
    add(&mut user, "c").unwrap();
    user.titles[2].id = 0;
    user.remove_title(0);
    let urls: Vec<&str> = user.titles.iter().map(|t| t.url.as_str()).collect();
    assert_eq!(urls, vec!["b"]);
    user.remove_title(7);
    assert_eq!(user.titles.len(), 1);
    assert_eq!(user.password, "m");
}

#[test]
fn system_title_becomes_unread_user_title() {
    let title = SystemTitle {
        id: 6,
        title: "T".to_string(),
        last_updated: "2024-01-01".to_string(),
        url: "https://src.example/t".to_string(),
        chapters: vec![StoryChapter { desc: "One".to_string(), url: "https://c/1".to_string() }],
    };
    let copy = title.duplicate();
    let seen = title.into_usertitle();
    assert_eq!(seen.id, 6);
    assert_eq!(seen.title, "T");
    assert_eq!(seen.last_read, "");
    assert_eq!(seen.last_chap, 0);
    assert_eq!(seen.url, "https://src.example/t");
    assert_eq!(seen.chapters.len(), 1);
    assert_eq!(seen.chapters[0].desc, "One");
    assert_eq!(copy.id, 6);
    assert_eq!(copy.last_updated, "2024-01-01");
    assert_eq!(copy.chapters[0].url, "https://c/1");
}
