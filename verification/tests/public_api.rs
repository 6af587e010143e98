//! The notebook seen only through its public items.

use rusty_projects::{Entry, Notebook};

#[test]
fn a_full_session_through_the_public_api_only() {
    let mut nb = Notebook::new();
    assert!(nb.is_empty());

    nb.add("hello".to_string(), "World, hello!".to_string());
    nb.add("rust".to_string(), "Ownership is the core".to_string());
    assert_eq!(nb.len(), 2);
    assert_eq!(nb.list(), vec!["hello", "rust"]);

    assert!(nb.edit_body("rust", "Borrowing too".to_string()));
    assert_eq!(nb.get("rust").unwrap().body, "Borrowing too");

    let taken = nb.remove("hello").expect("刚加进去的");
    assert_eq!(taken.body, "World, hello!");
    assert_eq!(nb.list(), vec!["rust"]);
}

#[test]
fn removed_entry_outlives_the_notebook_it_came_from() {
    let mut entry: Entry = {
        let mut nb = Notebook::new();
        nb.add("hello".to_string(), "World, hello!".to_string());
        nb.remove("hello").expect("刚加进去的")
    };

    entry.body.push_str(" (mine now)");
    assert_eq!(entry.title, "hello");
    assert_eq!(entry.body, "World, hello! (mine now)");
}

#[test]
fn get_mut_lets_a_caller_edit_in_place() {
    let mut nb = Notebook::new();
    nb.add("todo".to_string(), "write a test".to_string());

    let entry = nb.get_mut("todo").expect("刚加进去的");
    entry.body = "wrote it".to_string();

    assert_eq!(nb.get("todo").unwrap().body, "wrote it");
}
