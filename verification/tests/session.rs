use todo_txt::session::menu_text;
use todo_txt::session::parse_selection;
use todo_txt::session::render_todo_list;
use todo_txt::session::Mode;
use todo_txt::session::Session;

#[test]
fn selection_parses_plain_number() {
    assert_eq!(parse_selection("5"), Some(5));
    assert_eq!(parse_selection("1"), Some(1));
    assert_eq!(parse_selection("007"), Some(7));
}

#[test]
fn selection_trims_surrounding_whitespace() {
    assert_eq!(parse_selection(" 2 \n"), Some(2));
    assert_eq!(parse_selection("\t3\r\n"), Some(3));
}

#[test]
fn selection_rejects_non_numbers() {
    assert_eq!(parse_selection(""), None);
    assert_eq!(parse_selection("   "), None);
    assert_eq!(parse_selection("abc"), None);
    assert_eq!(parse_selection("1a"), None);
    assert_eq!(parse_selection("-1"), None);
    assert_eq!(parse_selection("1 2"), None);
}

#[test]
fn selection_rejects_out_of_range_values() {
    assert_eq!(parse_selection("4294967295"), Some(u32::MAX));
    assert_eq!(parse_selection("4294967296"), None);
    assert_eq!(parse_selection("99999999999999999999"), None);
}

#[test]
fn render_numbers_items_in_order() {
    let items = todo_txt::codec::parse_todo_list(String::from("[ ] Buy milk\n[x] Pay bills"));
    assert_eq!(render_todo_list(&items), "1. [ ] Buy milk\n2. [x] Pay bills");
}

#[test]
fn render_empty_list_uses_fixed_message() {
    assert_eq!(render_todo_list(&[]), "The todo list is empty.");
}

#[test]
fn menu_lists_all_five_actions() {
    assert_eq!(
        menu_text(),
        "1. View todo list\n2. Add a new todo\n3. Remove a todo\n4. Toggle todo completion\n5. Exit"
    );
}

#[test]
fn view_reprints_current_list() {
    let (mut session, warnings) = Session::from_text("[ ] Buy milk\n[x] Pay bills");
    assert!(warnings.is_empty());
    let result = session.step("1");
    assert_eq!(result.output, "1. [ ] Buy milk\n2. [x] Pay bills");
    assert_eq!(result.warning, None);
    assert_eq!(session.mode, Mode::Menu);
}

#[test]
fn view_of_empty_list_prints_fixed_message() {
    let (mut session, warnings) = Session::from_text("");
    assert!(warnings.is_empty());
    assert!(session.items.is_empty());
    let result = session.step("1");
    assert_eq!(result.output, "The todo list is empty.");
}

#[test]
fn exit_ends_session_and_keeps_list_for_write_back() {
    let (mut session, _) = Session::from_text("[ ] Buy milk\n[x] Pay bills");
    assert!(session.is_running());
    let result = session.step("5");
    assert_eq!(result.output, "Exiting...");
    assert!(!session.is_running());
    assert_eq!(session.mode, Mode::Exited);
    assert_eq!(session.final_text(), "[ ] Buy milk\n[x] Pay bills");
}

#[test]
fn add_appends_pending_item() {
    let (mut session, _) = Session::from_text("[x] Pay bills");
    let result = session.step("2");
    assert_eq!(result.output, "");
    assert_eq!(session.mode, Mode::AddPrompt);
    assert_eq!(session.prompt(), "Enter the todo description:");
    session.step("Buy eggs");
    assert_eq!(session.mode, Mode::Menu);
    assert_eq!(session.items.len(), 2);
    assert!(!session.items[1].completed);
    assert_eq!(session.items[1].description, "Buy eggs");
    assert_eq!(session.final_text(), "[x] Pay bills\n[ ] Buy eggs");
}

#[test]
fn remove_deletes_item_by_displayed_index() {
    let (mut session, _) = Session::from_text("[ ] Buy milk\n[x] Pay bills");
    session.step("3");
    assert_eq!(session.mode, Mode::RemovePrompt);
    assert_eq!(session.prompt(), "Enter the number of the todo to remove:");
    let result = session.step("1");
    assert_eq!(result.warning, None);
    assert_eq!(session.mode, Mode::Menu);
    assert_eq!(session.final_text(), "[x] Pay bills");
}

#[test]
fn toggle_flips_completion_by_displayed_index() {
    let (mut session, _) = Session::from_text("[ ] Buy milk\n[x] Pay bills");
    session.step("4");
    assert_eq!(session.mode, Mode::TogglePrompt);
    assert_eq!(session.prompt(), "Enter the number of the todo to toggle:");
    session.step("2");
    assert_eq!(session.mode, Mode::Menu);
    assert_eq!(session.final_text(), "[ ] Buy milk\n[ ] Pay bills");
    session.step("4");
    session.step("1");
    assert_eq!(session.final_text(), "[x] Buy milk\n[ ] Pay bills");
}

#[test]
fn unselectable_menu_line_is_ignored_with_warning() {
    let (mut session, _) = Session::from_text("[ ] Buy milk");
    let result = session.step("abc");
    assert_eq!(result.output, "");
    assert_eq!(result.warning, Some(String::from("Invalid menu selection: abc")));
    assert_eq!(session.mode, Mode::Menu);
    let result = session.step("6");
    assert_eq!(result.warning, Some(String::from("Invalid menu selection: 6")));
    assert_eq!(session.mode, Mode::Menu);
    assert_eq!(session.final_text(), "[ ] Buy milk");
}

#[test]
fn out_of_range_index_is_rejected_with_warning() {
    let (mut session, _) = Session::from_text("[ ] Buy milk");
    session.step("3");
    let result = session.step("7");
    assert_eq!(result.warning, Some(String::from("Invalid todo index: 7")));
    assert_eq!(session.mode, Mode::Menu);
    assert_eq!(session.final_text(), "[ ] Buy milk");
    session.step("4");
    let result = session.step("0");
    assert_eq!(result.warning, Some(String::from("Invalid todo index: 0")));
    assert_eq!(session.final_text(), "[ ] Buy milk");
}

#[test]
fn load_reports_warnings_and_keeps_rest() {
    let (session, warnings) = Session::from_text("Walk the dog\n[x] Pay bills");
    assert_eq!(warnings, vec![String::from("Invalid todo item format: Walk the dog")]);
    assert_eq!(session.items.len(), 1);
    assert_eq!(session.items[0].description, "Pay bills");
}

#[test]
fn menu_prompt_is_the_menu() {
    let (session, _) = Session::from_text("");
    assert_eq!(session.prompt(), menu_text());
}
