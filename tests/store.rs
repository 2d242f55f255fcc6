use community_bulletin_backend::{BulletinBoardState, Caller, Category, Post, StoreError};

fn alice() -> Caller {
    Caller::from_bytes(vec![0x0a, 0x01, 0x02])
}

fn bob() -> Caller {
    Caller::from_bytes(vec![0x0b, 0x01, 0x02])
}

fn ids(posts: &[Post]) -> Vec<u64> {
    posts.iter().map(|p| p.id).collect()
}

#[test]
fn test_create_post() {
    let mut state = BulletinBoardState::new();
    let title = "Test Post".to_string();
    let content = "This is a test post.".to_string();
    let category = Category::Announcement;

    let post_id = state.create_post(&Caller::from_bytes(vec![4]), title.clone(), content.clone(), category, 0);
    let post = state.get_post(post_id).unwrap();

    assert_eq!(post.title, title);
    assert_eq!(post.content, content);
    assert_eq!(post.category, category);
}

#[test]
fn scenario_update_and_delete_by_author_only() {
    let mut state = BulletinBoardState::new();
    let id = state.create_post(&alice(), "T".to_string(), "C".to_string(), Category::Announcement, 100);
    assert_eq!(id, 0);

    let post = state.get_post(0).unwrap();
    assert_eq!(post.id, 0);
    assert!(post.author == alice());
    assert_eq!(post.title, "T");
    assert_eq!(post.content, "C");
    assert_eq!(post.category, Category::Announcement);

    assert_eq!(state.update_post(&bob(), 0, Some("X".to_string()), None, None), Err(StoreError::Unauthorized));
    assert_eq!(state.get_post(0).unwrap().title, "T");

    assert_eq!(state.update_post(&alice(), 0, Some("X".to_string()), None, None), Ok(()));
    assert_eq!(state.get_post(0).unwrap().title, "X");

    assert_eq!(state.delete_post(&alice(), 0), Ok(()));
    assert!(state.get_post(0).is_none());
}

#[test]
fn ids_increase_across_deletes() {
    let mut state = BulletinBoardState::new();
    let a = state.create_post(&alice(), "a".to_string(), "".to_string(), Category::Event, 1);
    let b = state.create_post(&alice(), "b".to_string(), "".to_string(), Category::Event, 2);
    assert_eq!(state.delete_post(&alice(), b), Ok(()));
    let c = state.create_post(&bob(), "c".to_string(), "".to_string(), Category::Classified, 3);
    assert_eq!(state.delete_post(&alice(), a), Ok(()));
    let d = state.create_post(&bob(), "d".to_string(), "".to_string(), Category::Classified, 4);
    assert_eq!((a, b, c, d), (0, 1, 2, 3));
    assert_eq!(state.next_id(), 4);
    assert!(state.get_post(b).is_none());
    assert_eq!(state.get_post(c).unwrap().title, "c");
}

#[test]
fn get_after_create_keeps_every_field() {
    let mut state = BulletinBoardState::new();
    state.create_post(&bob(), "first".to_string(), "x".to_string(), Category::Event, 7);
    let id = state.create_post(&alice(), "Garage sale".to_string(), "Saturday 9am".to_string(), Category::Classified, 1_700_000_000);
    let post = state.get_post(id).unwrap();
    assert_eq!(post.id, 1);
    assert!(post.author == alice());
    assert_eq!(post.author.as_bytes(), &vec![0x0a, 0x01, 0x02]);
    assert_eq!(post.title, "Garage sale");
    assert_eq!(post.content, "Saturday 9am");
    assert_eq!(post.category, Category::Classified);
    assert_eq!(post.timestamp, 1_700_000_000);
}

#[test]
fn update_by_other_changes_nothing() {
    let mut state = BulletinBoardState::new();
    let id = state.create_post(&alice(), "T".to_string(), "C".to_string(), Category::Event, 9);
    let r = state.update_post(&bob(), id, Some("X".to_string()), Some("Y".to_string()), Some(Category::Classified));
    assert_eq!(r, Err(StoreError::Unauthorized));
    let post = state.get_post(id).unwrap();
    assert_eq!(post.title, "T");
    assert_eq!(post.content, "C");
    assert_eq!(post.category, Category::Event);
    assert!(post.author == alice());
    assert_eq!(post.timestamp, 9);
}

#[test]
fn update_title_only_keeps_other_fields() {
    let mut state = BulletinBoardState::new();
    let id = state.create_post(&alice(), "T".to_string(), "C".to_string(), Category::Event, 9);
    assert_eq!(state.update_post(&alice(), id, Some("New".to_string()), None, None), Ok(()));
    let post = state.get_post(id).unwrap();
    assert_eq!(post.title, "New");
    assert_eq!(post.content, "C");
    assert_eq!(post.category, Category::Event);
    assert!(post.author == alice());
    assert_eq!(post.timestamp, 9);
}

#[test]
fn update_all_fields_and_empty_string() {
    let mut state = BulletinBoardState::new();
    let id = state.create_post(&alice(), "T".to_string(), "C".to_string(), Category::Event, 9);
    let r = state.update_post(&alice(), id, Some("".to_string()), Some("D".to_string()), Some(Category::Announcement));
    assert_eq!(r, Ok(()));
    let post = state.get_post(id).unwrap();
    assert_eq!(post.title, "");
    assert_eq!(post.content, "D");
    assert_eq!(post.category, Category::Announcement);
    assert_eq!(post.timestamp, 9);
}

#[test]
fn delete_by_other_is_refused() {
    let mut state = BulletinBoardState::new();
    let id = state.create_post(&alice(), "T".to_string(), "C".to_string(), Category::Event, 9);
    assert_eq!(state.delete_post(&bob(), id), Err(StoreError::Unauthorized));
    assert_eq!(state.get_post(id).unwrap().title, "T");
}

#[test]
fn deleted_post_is_not_found() {
    let mut state = BulletinBoardState::new();
    let id = state.create_post(&alice(), "T".to_string(), "C".to_string(), Category::Event, 9);
    assert_eq!(state.delete_post(&alice(), id), Ok(()));
    assert!(state.get_post(id).is_none());
    assert_eq!(state.update_post(&alice(), id, Some("X".to_string()), None, None), Err(StoreError::NotFound));
    assert_eq!(state.delete_post(&alice(), id), Err(StoreError::NotFound));
    assert_eq!(state.delete_post(&bob(), id), Err(StoreError::NotFound));
}

#[test]
fn unknown_id_is_not_found() {
    let mut state = BulletinBoardState::new();
    assert!(state.get_post(0).is_none());
    assert_eq!(state.update_post(&alice(), 0, None, None, None), Err(StoreError::NotFound));
    assert_eq!(state.delete_post(&alice(), 0), Err(StoreError::NotFound));
}

#[test]
fn list_by_category_is_exact() {
    let mut state = BulletinBoardState::new();
    let e1 = state.create_post(&alice(), "e1".to_string(), "".to_string(), Category::Event, 1);
    state.create_post(&bob(), "a".to_string(), "".to_string(), Category::Announcement, 2);
    let e2 = state.create_post(&bob(), "e2".to_string(), "".to_string(), Category::Event, 3);
    let c = state.create_post(&alice(), "c".to_string(), "".to_string(), Category::Classified, 4);
    let e3 = state.create_post(&alice(), "e3".to_string(), "".to_string(), Category::Event, 5);
    assert_eq!(state.delete_post(&bob(), e2), Ok(()));
    assert_eq!(state.update_post(&alice(), c, None, None, Some(Category::Event)), Ok(()));
    assert_eq!(state.update_post(&alice(), e3, None, None, Some(Category::Classified)), Ok(()));
    let events = state.get_posts_by_category(Category::Event);
    assert_eq!(ids(&events), vec![e1, c]);
    assert!(events.iter().all(|p| p.category == Category::Event));
    assert_eq!(ids(&state.get_posts_by_category(Category::Classified)), vec![e3]);
    assert_eq!(ids(&state.get_posts_by_category(Category::Announcement)), vec![1]);
}

#[test]
fn list_on_empty_store() {
    let state = BulletinBoardState::new();
    assert!(state.get_all_posts().is_empty());
    assert!(state.get_posts_by_category(Category::Event).is_empty());
    assert_eq!(state.next_id(), 0);
}

#[test]
fn list_all_in_id_order() {
    let mut state = BulletinBoardState::new();
    for i in 0..5u64 {
        state.create_post(&alice(), format!("p{}", i), "".to_string(), Category::Announcement, i);
    }
    assert_eq!(state.delete_post(&alice(), 2), Ok(()));
    let all = state.get_all_posts();
    assert_eq!(ids(&all), vec![0, 1, 3, 4]);
    assert_eq!(all[2].title, "p3");
}

#[test]
fn caller_equality_by_bytes() {
    assert!(alice() == Caller::from_bytes(vec![0x0a, 0x01, 0x02]));
    assert!(alice() != bob());
    assert!(Caller::from_bytes(vec![1]) != Caller::from_bytes(vec![1, 0]));
    assert!(Caller::from_bytes(vec![]) == Caller::from_bytes(vec![]));
    let d = alice().duplicate();
    assert!(d == alice());
}

#[test]
fn post_duplicate_is_equal() {
    let mut state = BulletinBoardState::new();
    let id = state.create_post(&alice(), "T".to_string(), "C".to_string(), Category::Event, 9);
    let p = state.get_post(id).unwrap();
    let q = p.duplicate();
    assert_eq!((q.id, q.title.as_str(), q.content.as_str(), q.category, q.timestamp), (p.id, "T", "C", Category::Event, 9));
    assert!(q.author == p.author);
}
