use linkwise::import::{collect_missing_folder_orders, folder_next_orders, log_find, plan_bulk_import};
use linkwise::models::{BookmarkPayload, BulkBookmarksPayload, FolderOrder};

fn item(id: Option<&str>, title: Option<&str>, url: &str, folder: Option<&str>) -> BookmarkPayload {
    BookmarkPayload {
        id: id.map(|s| s.to_string()),
        title: title.map(|s| s.to_string()),
        url: Some(url.to_string()),
        folder: folder.map(|s| s.to_string()),
    }
}

fn order(parent: &str, name: &str, sort_order: i64) -> FolderOrder {
    FolderOrder { parent_folder: parent.to_string(), folder_name: name.to_string(), sort_order }
}

fn row(id: &str, title: &str, url: &str, folder: &str, position: i64) -> (String, String, String, String, i64) {
    (id.to_string(), title.to_string(), url.to_string(), folder.to_string(), position)
}

fn triple(parent: &str, name: &str, position: i64) -> (String, String, i64) {
    (parent.to_string(), name.to_string(), position)
}

#[test]
fn bulk_import_takes_new_urls_and_counts_the_rest() {
    let payload = BulkBookmarksPayload {
        bookmarks: vec![
            item(None, Some("A dup"), "a.example", None),
            item(Some(" x1 "), None, "b.example", Some("Dev / Rust")),
            item(None, Some("  "), "c.example", None),
            item(None, Some("B again"), "https://b.example", Some("Dev")),
            item(None, Some("Bad"), "ftp://x.example", None),
            item(None, Some("C"), "c.example", Some("Dev")),
            item(Some(""), Some("D"), "d.example", Some("New")),
            item(None, Some("E"), "e.example", Some("New / Sub")),
            item(None, Some("F"), "f.example", Some("New")),
        ],
    };
    let existing = vec!["https://a.example".to_string()];
    let next_orders = vec![("Dev".to_string(), 3)];
    let folder_orders = vec![order("", "Dev", 0), order("", "Misc", 4)];
    let plan = plan_bulk_import(&payload, "now", &existing, &next_orders, &folder_orders);
    assert_eq!(
        plan.valid_items,
        vec![
            row("x1", "未命名书签", "https://b.example", "Dev / Rust", 0),
            row("now-5", "C", "https://c.example", "Dev", 3),
            row("now-6", "D", "https://d.example", "New", 0),
            row("now-7", "E", "https://e.example", "New / Sub", 0),
            row("now-8", "F", "https://f.example", "New", 1),
        ]
    );
    assert_eq!(plan.imported_ids, vec!["x1", "now-5", "now-6", "now-7", "now-8"]);
    assert_eq!(plan.folder_order_items, vec![triple("Dev", "Rust", 0), triple("", "New", 5), triple("New", "Sub", 0)]);
    assert_eq!(plan.duplicate_count, 2);
    assert_eq!(plan.skipped_count, 2);
    assert_eq!(plan.valid_items.len() + plan.duplicate_count + plan.skipped_count, payload.bookmarks.len());
}

#[test]
fn bulk_import_of_nothing_changes_nothing() {
    let plan = plan_bulk_import(&BulkBookmarksPayload { bookmarks: vec![] }, "1", &vec![], &vec![], &vec![]);
    assert!(plan.valid_items.is_empty());
    assert!(plan.imported_ids.is_empty());
    assert!(plan.folder_order_items.is_empty());
    assert_eq!(plan.duplicate_count, 0);
    assert_eq!(plan.skipped_count, 0);
}

#[test]
fn imported_urls_are_distinct_and_new() {
    let payload = BulkBookmarksPayload {
        bookmarks: vec![
            item(None, Some("1"), "x.example", None),
            item(None, Some("2"), "X.example", None),
            item(None, Some("3"), "https://x.example", None),
            item(None, Some("4"), "y.example", None),
        ],
    };
    let existing = vec!["https://y.example".to_string()];
    let plan = plan_bulk_import(&payload, "t", &existing, &vec![], &vec![]);
    let urls: Vec<&str> = plan.valid_items.iter().map(|r| r.2.as_str()).collect();
    assert_eq!(urls, vec!["https://x.example", "https://X.example"]);
    assert_eq!(plan.duplicate_count, 2);
}

#[test]
fn folder_next_orders_take_the_greatest_position() {
    let log = folder_next_orders(&vec![order("", "A", 2), order("", "B", 0), order("A", "C", 7)]);
    assert_eq!(log_find(&log, &"".to_string()), Some(3));
    assert_eq!(log_find(&log, &"A".to_string()), Some(8));
    assert_eq!(log_find(&log, &"B".to_string()), None);
}

#[test]
fn missing_folder_orders_are_added_once() {
    let mut keys = vec![("".to_string(), "A".to_string())];
    let mut next = vec![("".to_string(), 1)];
    let mut items = Vec::new();
    collect_missing_folder_orders("A / B / C", &mut keys, &mut next, &mut items);
    assert_eq!(items, vec![triple("A", "B", 0), triple("A / B", "C", 0)]);
    collect_missing_folder_orders("A / B / C", &mut keys, &mut next, &mut items);
    assert_eq!(items.len(), 2);
    collect_missing_folder_orders("Z", &mut keys, &mut next, &mut items);
    assert_eq!(items[2], triple("", "Z", 1));
    assert_eq!(keys.len(), 4);
}
