use todo_txt::codec::parse_todo_item;
use todo_txt::codec::parse_todo_list;
use todo_txt::codec::parse_todo_list_report;
use todo_txt::codec::todo_item_to_string;
use todo_txt::codec::todo_list_to_string;
use todo_txt::codec::TodoItem;

#[test]
fn parse_completed_line() {
    let item = parse_todo_item("[x] Walk the dog").unwrap();
    assert!(item.completed);
    assert_eq!(item.description, "Walk the dog");
}

#[test]
fn parse_pending_line() {
    let item = parse_todo_item("[ ] Buy milk").unwrap();
    assert!(!item.completed);
    assert_eq!(item.description, "Buy milk");
}

#[test]
fn parse_empty_description() {
    let item = parse_todo_item("[x] ").unwrap();
    assert!(item.completed);
    assert_eq!(item.description, "");
}

#[test]
fn parse_rejects_missing_prefix() {
    let err = parse_todo_item("Walk the dog").unwrap_err();
    assert_eq!(err, "Invalid todo item format: Walk the dog");
}

#[test]
fn parse_rejects_short_line() {
    assert!(parse_todo_item("[x]").is_err());
    assert!(parse_todo_item("").is_err());
}

#[test]
fn parse_rejects_wrong_prefix() {
    assert!(parse_todo_item("[y] Buy milk").is_err());
    assert!(parse_todo_item("(x) Buy milk").is_err());
    assert!(parse_todo_item("x] Buy milk").is_err());
}

#[test]
fn format_completed_item() {
    let item = TodoItem { completed: true, description: String::from("Pay bills") };
    assert_eq!(todo_item_to_string(&item), "[x] Pay bills");
}

#[test]
fn format_pending_item() {
    let item = TodoItem { completed: false, description: String::from("Buy milk") };
    assert_eq!(todo_item_to_string(&item), "[ ] Buy milk");
}

#[test]
fn format_list_joins_without_trailing_newline() {
    let items = vec![
        TodoItem { completed: false, description: String::from("Buy milk") },
        TodoItem { completed: true, description: String::from("Pay bills") },
    ];
    assert_eq!(todo_list_to_string(&items), "[ ] Buy milk\n[x] Pay bills");
}

#[test]
fn format_empty_list_is_empty_text() {
    let items: Vec<TodoItem> = Vec::new();
    assert_eq!(todo_list_to_string(&items), "");
}

#[test]
fn parse_list_of_two_lines() {
    let items = parse_todo_list(String::from("[ ] Buy milk\n[x] Pay bills"));
    assert_eq!(items.len(), 2);
    assert!(!items[0].completed);
    assert_eq!(items[0].description, "Buy milk");
    assert!(items[1].completed);
    assert_eq!(items[1].description, "Pay bills");
}

#[test]
fn parse_list_skips_unparsable_line() {
    let items = parse_todo_list(String::from("Walk the dog\n[x] Pay bills"));
    assert_eq!(items.len(), 1);
    assert!(items[0].completed);
    assert_eq!(items[0].description, "Pay bills");
}

#[test]
fn parse_list_reports_one_warning_per_skipped_line() {
    let (items, warnings) = parse_todo_list_report("Walk the dog\n[x] Pay bills\nnope");
    assert_eq!(items.len(), 1);
    assert_eq!(
        warnings,
        vec![
            String::from("Invalid todo item format: Walk the dog"),
            String::from("Invalid todo item format: nope"),
        ]
    );
}

#[test]
fn parse_list_of_empty_text_is_empty() {
    let (items, warnings) = parse_todo_list_report("");
    assert!(items.is_empty());
    assert!(warnings.is_empty());
}

#[test]
fn parse_list_ignores_trailing_newline() {
    let items = parse_todo_list(String::from("[ ] Buy milk\n"));
    assert_eq!(items.len(), 1);
    assert_eq!(items[0].description, "Buy milk");
}

#[test]
fn parse_list_keeps_blank_line_warning() {
    let (items, warnings) = parse_todo_list_report("[ ] Buy milk\n\n[x] Pay bills");
    assert_eq!(items.len(), 2);
    assert_eq!(warnings, vec![String::from("Invalid todo item format: ")]);
}

#[test]
fn item_round_trip() {
    let item = TodoItem { completed: true, description: String::from("Walk the dog") };
    let back = parse_todo_item(&todo_item_to_string(&item)).unwrap();
    assert_eq!(back.completed, item.completed);
    assert_eq!(back.description, item.description);
}

#[test]
fn item_round_trip_with_prefix_shaped_description() {
    let item = TodoItem { completed: false, description: String::from("[x] nested") };
    let back = parse_todo_item(&todo_item_to_string(&item)).unwrap();
    assert_eq!(back.completed, item.completed);
    assert_eq!(back.description, item.description);
}

#[test]
fn list_round_trip() {
    let items = vec![
        TodoItem { completed: false, description: String::from("Buy milk") },
        TodoItem { completed: true, description: String::from("Pay bills") },
        TodoItem { completed: false, description: String::from("") },
    ];
    let back = parse_todo_list(todo_list_to_string(&items));
    assert_eq!(back.len(), items.len());
    for (a, b) in items.iter().zip(back.iter()) {
        assert_eq!(a.completed, b.completed);
        assert_eq!(a.description, b.description);
    }
}
