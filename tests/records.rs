use voting_system::{Counter, Data, DataStore, Identity, TodoList};

fn who(b: u8) -> Identity {
    Identity::new(vec![b, 9])
}

fn record(text: &str, n: i64) -> Data {
    Data {
        text: Some(text.to_string()),
        number: Some(n),
        boolean: None,
        array: Some(vec![1, 2, 3]),
    }
}

#[test]
fn counter_counts_up() {
    let mut c = Counter::init();
    assert_eq!(c.get(), 0);
    assert_eq!(c.increment(), 1);
    assert_eq!(c.increment(), 2);
    assert_eq!(c.get(), 2);
}

#[test]
fn todo_ids_and_fields() {
    let mut list = TodoList::new();
    let a = list.create_todo(100, "a".to_string(), "x".to_string());
    let b = list.create_todo(200, "b".to_string(), "y".to_string());
    assert_eq!((a.id, b.id), (1, 2));
    assert!(!a.completed);
    assert_eq!((a.created_at, a.updated_at), (100, 100));
    assert_eq!(list.get_todo_count(), 2);
    assert_eq!(list.get_todo(2).unwrap().title, "b");
    assert!(list.get_todo(3).is_none());
}

#[test]
fn todo_ids_not_reused_after_delete() {
    let mut list = TodoList::new();
    list.create_todo(1, "a".to_string(), "x".to_string());
    assert!(list.delete_todo(1));
    assert!(!list.delete_todo(1));
    let c = list.create_todo(2, "c".to_string(), "z".to_string());
    assert_eq!(c.id, 2);
    assert_eq!(list.get_todo_count(), 1);
    assert!(list.get_todo(1).is_none());
}

#[test]
fn todo_update_and_toggle() {
    let mut list = TodoList::new();
    list.create_todo(1, "a".to_string(), "x".to_string());
    let u = list
        .update_todo(1, 5, Some("new".to_string()), None, Some(true))
        .unwrap();
    assert_eq!(u.title, "new");
    assert_eq!(u.description, "x");
    assert!(u.completed);
    assert_eq!((u.created_at, u.updated_at), (1, 5));
    let t = list.toggle_todo(1, 9).unwrap();
    assert!(!t.completed);
    assert_eq!(t.updated_at, 9);
    assert!(!list.get_todo(1).unwrap().completed);
    assert!(list.update_todo(7, 5, None, None, None).is_none());
    assert!(list.toggle_todo(7, 5).is_none());
}

#[test]
fn todo_listing_by_status() {
    let mut list = TodoList::new();
    list.create_todo(1, "a".to_string(), "x".to_string());
    list.create_todo(1, "b".to_string(), "x".to_string());
    list.create_todo(1, "c".to_string(), "x".to_string());
    list.toggle_todo(2, 3);
    let done: Vec<u64> = list.get_todos_by_status(true).iter().map(|t| t.id).collect();
    let open: Vec<u64> = list.get_todos_by_status(false).iter().map(|t| t.id).collect();
    assert_eq!(done, vec![2]);
    assert_eq!(open, vec![1, 3]);
    assert_eq!(list.get_all_todos().len(), 3);
}

#[test]
fn data_store_per_caller() {
    let mut store = DataStore::new();
    assert!(store.store_data(who(1), record("one", 1)));
    assert!(store.store_data(who(2), record("two", 2)));
    assert!(store.store_data(who(1), record("uno", 11)));
    assert_eq!(store.get_data_count(), 2);
    let d = store.get_data(&who(1)).unwrap();
    assert_eq!(d.text, Some("uno".to_string()));
    assert_eq!(d.number, Some(11));
    assert_eq!(d.array, Some(vec![1, 2, 3]));
    assert!(store.has_data(&who(2)));
    assert!(!store.has_data(&who(3)));
    assert!(store.get_data(&who(3)).is_none());
}

#[test]
fn data_store_delete_and_clear() {
    let mut store = DataStore::new();
    store.store_data(who(1), record("one", 1));
    store.store_data(who(2), record("two", 2));
    assert!(store.delete_data(&who(1)));
    assert!(store.delete_data(&who(1)));
    assert!(!store.has_data(&who(1)));
    let all = store.get_all_data();
    assert_eq!(all.len(), 1);
    assert_eq!(all[0].0.bytes, vec![2, 9]);
    assert!(store.clear_all_data());
    assert_eq!(store.get_data_count(), 0);
}
