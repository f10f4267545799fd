use aura_lang::shop::{parse_list_text, ShopItem, ShopPending, ShopState};

fn item(name: &str, qty: &str, notes: &str, purchased: bool) -> ShopItem {
    ShopItem { name: name.to_string(), qty: qty.to_string(), notes: notes.to_string(), purchased }
}

#[test]
fn add_dialog_appends_an_item() {
    let mut s = ShopState::new();
    assert_eq!(s.status(), "Ready");
    assert!(!s.consume_input_line("ignored\n"));
    s.begin_add();
    assert!(s.is_pending());
    assert_eq!(s.status(), "Add: type item name in the terminal, press Enter");
    assert!(!s.consume_input_line("   \n"));
    assert_eq!(s.status(), "Add: name cannot be empty. Type a name, press Enter");
    assert!(!s.consume_input_line("  Milk \r\n"));
    assert_eq!(s.status(), "Add: type quantity (Enter for 1), press Enter");
    assert!(!s.consume_input_line("\n"));
    assert!(s.consume_input_line(" fresh \n"));
    assert!(!s.is_pending());
    assert_eq!(s.status(), "Added: Milk");
    assert_eq!(s.items.len(), 1);
    assert_eq!(s.items[0].name, "Milk");
    assert_eq!(s.items[0].qty, "1");
    assert_eq!(s.items[0].notes, "fresh");
    assert!(!s.items[0].purchased);
}

#[test]
fn edit_dialog_keeps_blank_answers() {
    let mut s = ShopState::new();
    s.items.push(item("Eggs", "12", "brown", true));
    s.begin_edit(3);
    assert_eq!(s.status(), "Edit: invalid index");
    assert!(!s.is_pending());
    s.begin_edit(0);
    assert!(!s.consume_input_line("\n"));
    assert!(!s.consume_input_line("6\n"));
    assert!(s.consume_input_line("\n"));
    assert_eq!(s.status(), "Saved edit");
    assert_eq!(s.items[0].name, "Eggs");
    assert_eq!(s.items[0].qty, "6");
    assert_eq!(s.items[0].notes, "brown");
    assert!(s.items[0].purchased);
}

#[test]
fn edit_of_a_removed_item_is_refused() {
    let mut s = ShopState::new();
    s.items.push(item("Eggs", "12", "", false));
    s.begin_edit(0);
    s.items.clear();
    s.consume_input_line("a");
    s.consume_input_line("b");
    assert!(!s.consume_input_line("c"));
    assert_eq!(s.status(), "Edit: item no longer exists");
    assert!(matches!(s.pending, None));
}

#[test]
fn cancel_and_selection() {
    let mut s = ShopState::new();
    s.begin_add();
    assert!(matches!(s.pending, Some(ShopPending::Add { stage: 0, .. })));
    s.cancel_pending();
    assert!(!s.is_pending());
    assert_eq!(s.status(), "Canceled");
    s.items.push(item("A", "1", "", false));
    s.select(0);
    assert!(s.has_selection());
    assert_eq!(s.selected_index_u32(), 0);
    s.select(5);
    assert!(!s.has_selection());
    s.select(0);
    s.clear_selection();
    assert!(!s.has_selection());
    assert_eq!(s.selected_index_u32(), 0);
}

#[test]
fn list_file_round_trip() {
    let mut s = ShopState::new();
    s.items.push(item("Milk", "2", "oat\nmilk", false));
    s.items.push(item("Bread", "", "", true));
    let text = s.list_text();
    assert_eq!(text, "Milk\t2\toat milk\t0\nBread\t\t\t1\n");
    let back = parse_list_text(&text);
    assert_eq!(back.len(), 2);
    assert_eq!(back[0].notes, "oat milk");
    assert_eq!(back[1].name, "Bread");
    assert_eq!(back[1].qty, "");
    assert!(back[1].purchased);
}

#[test]
fn list_file_parsing() {
    let items = parse_list_text("Tea\n\n  \t x\nCoffee\t3\nJam\t1\tred\tyes\textra\nRice\t1\t\tno\r\n");
    assert_eq!(items.len(), 4);
    assert_eq!(items[0].name, "Tea");
    assert_eq!(items[0].qty, "1");
    assert_eq!(items[0].notes, "");
    assert!(!items[0].purchased);
    assert_eq!(items[1].qty, "3");
    assert!(!items[2].purchased);
    assert_eq!(items[2].notes, "red");
    assert!(!items[3].purchased);
    let items = parse_list_text("Jam\t1\tred\tYES");
    assert!(items[0].purchased);
}

#[test]
fn loading_sets_the_path() {
    let mut s = ShopState::new();
    s.load_items("list.tsv".to_string(), None);
    assert_eq!(s.path.as_deref(), Some("list.tsv"));
    assert!(s.items.is_empty());
    s.load_items("other.tsv".to_string(), Some("A\t1\t\t1\n"));
    assert_eq!(s.items.len(), 1);
    assert_eq!(s.ensure_path("default.tsv".to_string()), "other.tsv");
    let mut t = ShopState::new();
    assert_eq!(t.ensure_path("default.tsv".to_string()), "default.tsv");
    assert_eq!(t.path.as_deref(), Some("default.tsv"));
}
