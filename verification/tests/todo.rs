use devhub::todo::{add_todo, remove_todo, todo_display_order, toggle_todo, TodoItem};

fn texts(items: &[TodoItem]) -> Vec<(String, bool)> {
    items.iter().map(|i| (i.text.clone(), i.done)).collect()
}

#[test]
fn adding_trims_and_skips_blank_input() {
    let mut items = Vec::new();
    assert!(add_todo(&mut items, "  write tests \n"));
    assert!(!add_todo(&mut items, "   "));
    assert!(!add_todo(&mut items, ""));
    assert_eq!(texts(&items), vec![("write tests".to_string(), false)]);
}

#[test]
fn toggling_flips_one_todo_and_twice_restores() {
    let mut items = vec![TodoItem::new("a".to_string()), TodoItem::new("b".to_string())];
    assert!(toggle_todo(&mut items, 1));
    assert_eq!(texts(&items), vec![("a".to_string(), false), ("b".to_string(), true)]);
    assert!(toggle_todo(&mut items, 1));
    assert_eq!(texts(&items), vec![("a".to_string(), false), ("b".to_string(), false)]);
    assert!(!toggle_todo(&mut items, 2));
}

#[test]
fn removing_drops_one_todo() {
    let mut items = vec![TodoItem::new("a".to_string()), TodoItem::new("b".to_string()), TodoItem::new("c".to_string())];
    assert!(remove_todo(&mut items, 1));
    assert_eq!(texts(&items), vec![("a".to_string(), false), ("c".to_string(), false)]);
    assert!(!remove_todo(&mut items, 5));
    assert_eq!(items.len(), 2);
    assert!(add_todo(&mut items, "d"));
    assert!(remove_todo(&mut items, 2));
    assert_eq!(texts(&items), vec![("a".to_string(), false), ("c".to_string(), false)]);
}

#[test]
fn open_todos_are_listed_first() {
    let mut items = vec![
        TodoItem::new("a".to_string()),
        TodoItem::new("b".to_string()),
        TodoItem::new("c".to_string()),
        TodoItem::new("d".to_string()),
    ];
    toggle_todo(&mut items, 0);
    toggle_todo(&mut items, 2);
    let (order, open) = todo_display_order(&items);
    assert_eq!(order, vec![1, 3, 0, 2]);
    assert_eq!(open, 2);
}
