use linkwise::db::{
    clean_ids, folder_child_prefix, folder_like_pattern, is_valid_url, join_folder_path, merge_order, move_folder_path_up,
    moved_sort_orders, normalize_folder_path, placeholders, plan_folder_moves, plan_folder_renames, prepare_bookmark,
    prepare_delete_bookmarks, prepare_delete_folder, prepare_move_bookmarks, prepare_move_folder_up, prepare_rename_folder,
    prepare_reorder_bookmarks, repeat_row_placeholders, replace_folder_path, requested_folder_names, reuse_sort_order,
    split_folder_path, sql_chunk_size, url_candidate, BookmarkFolderRow, ExistingBookmarkOrder, FolderActionError,
    SaveBookmarkError,
};
use linkwise::folders::{folder_level_keys, path_key, plan_folder_order_branch_delete, plan_folder_order_move_up, plan_folder_order_rename};
use linkwise::models::{BookmarkPayload, FolderOrder, FolderPayload, IdsPayload, MoveBookmarksPayload, RenameFolderPayload, ReorderBookmarksPayload};
use linkwise::weburl::UrlParts;

fn strings(v: &[&str]) -> Vec<String> {
    v.iter().map(|s| s.to_string()).collect()
}

fn order(parent: &str, name: &str, sort_order: i64) -> FolderOrder {
    FolderOrder { parent_folder: parent.to_string(), folder_name: name.to_string(), sort_order }
}

fn row(id: &str, folder: &str) -> BookmarkFolderRow {
    BookmarkFolderRow { id: id.to_string(), folder: folder.to_string() }
}

#[test]
fn folder_normalization_is_idempotent() {
    for input in [" Dev / Rust ", "///", "a//b", "  x  /\ty\n", "Dev / Rust", "", "/ lonely /"] {
        let once = normalize_folder_path(input);
        assert_eq!(normalize_folder_path(&once), once);
    }
    assert_eq!(normalize_folder_path("a//b"), "a / b");
    assert_eq!(normalize_folder_path("  x  /\ty\n"), "x / y");
}

#[test]
fn split_folder_path_drops_blank_levels() {
    assert_eq!(split_folder_path(" a / b /  / c"), strings(&["a", "b", "c"]));
    assert!(split_folder_path("  ").is_empty());
}

#[test]
fn joins_folder_paths() {
    assert_eq!(join_folder_path("A", "B"), "A / B");
    assert_eq!(join_folder_path("", "B"), "B");
    assert_eq!(join_folder_path("A", ""), "A");
    assert_eq!(folder_child_prefix("A"), "A / ");
    assert_eq!(folder_like_pattern("A / B"), "A / B / %");
}

#[test]
fn replaces_folder_prefixes() {
    assert_eq!(replace_folder_path("Dev / Rust / Async", "Dev", "Code"), "Code / Rust / Async");
    assert_eq!(replace_folder_path("Dev", "Dev", "Code"), "Code");
    assert_eq!(replace_folder_path("Devops", "Dev", "Code"), "Devops");
    assert_eq!(replace_folder_path("Dev / Rust", "Dev", ""), "Rust");
}

#[test]
fn moves_folder_paths_up() {
    assert_eq!(move_folder_path_up("A / B / C", "A / B", "A"), Some("A / C".to_string()));
    assert_eq!(move_folder_path_up("A / B", "A / B", "A"), Some("A".to_string()));
    assert_eq!(move_folder_path_up("B / C", "B", ""), Some("C".to_string()));
    assert_eq!(move_folder_path_up("X", "A / B", "A"), None);
}

#[test]
fn cleans_ids() {
    assert_eq!(clean_ids(strings(&[" a ", "", "  ", "b"])), strings(&["a", "b"]));
}

#[test]
fn url_candidates_and_validity() {
    assert_eq!(url_candidate("  HTTP://Example.com  "), Some("HTTP://Example.com".to_string()));
    assert_eq!(url_candidate("example.com"), Some("https://example.com".to_string()));
    assert_eq!(url_candidate("ftp://example.com"), None);
    assert_eq!(url_candidate("   "), None);
    assert!(is_valid_url("https://example.com/a"));
    assert!(!is_valid_url("mailto:someone@example.com"));
    assert!(!is_valid_url("not a url"));
}

#[test]
fn web_url_parts_need_http_scheme_and_host() {
    let parts = |scheme: &str, host: Option<&str>| Some(UrlParts { scheme: scheme.to_string(), host: host.map(|h| h.to_string()), port: None });
    assert!(linkwise::db::is_web_url_parts(&parts("https", Some("a.example"))));
    assert!(linkwise::db::is_web_url_parts(&parts("http", Some("a.example"))));
    assert!(!linkwise::db::is_web_url_parts(&parts("ftp", Some("a.example"))));
    assert!(!linkwise::db::is_web_url_parts(&parts("https", None)));
    assert!(!linkwise::db::is_web_url_parts(&None));
}

#[test]
fn builds_sql_placeholders() {
    assert_eq!(placeholders(3), "?,?,?");
    assert_eq!(placeholders(0), "");
    assert_eq!(repeat_row_placeholders(2, 3), "(?, ?, ?), (?, ?, ?)");
    assert_eq!(sql_chunk_size(5, 0), 20);
    assert_eq!(sql_chunk_size(3, 0), 33);
    assert_eq!(sql_chunk_size(200, 0), 1);
    assert_eq!(sql_chunk_size(1, 150), 1);
}

#[test]
fn prepares_bookmarks_for_saving() {
    let payload = BookmarkPayload {
        id: Some("  ".to_string()),
        title: Some("  Rust  ".to_string()),
        url: Some("rust-lang.org".to_string()),
        folder: Some(" Dev/ Lang ".to_string()),
    };
    let prepared = prepare_bookmark(&payload, "generated".to_string()).ok().unwrap();
    assert_eq!(prepared.id, "generated");
    assert_eq!(prepared.title, "Rust");
    assert_eq!(prepared.url, "https://rust-lang.org");
    assert_eq!(prepared.folder, "Dev / Lang");

    let no_title = BookmarkPayload { id: None, title: Some("   ".to_string()), url: Some("x.org".to_string()), folder: None };
    assert!(matches!(prepare_bookmark(&no_title, "g".to_string()), Err(SaveBookmarkError::MissingTitle)));
    let bad_url = BookmarkPayload { id: Some(" id1 ".to_string()), title: Some("T".to_string()), url: Some("javascript:void(0)".to_string()), folder: None };
    assert!(matches!(prepare_bookmark(&bad_url, "g".to_string()), Err(SaveBookmarkError::InvalidUrl)));
    assert_eq!(SaveBookmarkError::MissingTitle.code(), "missing_title");
    assert_eq!(SaveBookmarkError::MissingTitle.message(), "标题不能为空");
    assert_eq!(SaveBookmarkError::InvalidUrl.code(), "invalid_url");
    assert_eq!(SaveBookmarkError::InvalidUrl.message(), "URL 无效");
}

#[test]
fn reuses_sort_order_within_the_same_folder() {
    let existing = Some(ExistingBookmarkOrder { folder: "A".to_string(), value: 7 });
    assert_eq!(reuse_sort_order(&existing, "A"), Some(7));
    assert_eq!(reuse_sort_order(&existing, "B"), None);
    assert_eq!(reuse_sort_order(&None, "A"), None);
}

#[test]
fn move_and_delete_requests_need_ids() {
    let plan = prepare_move_bookmarks(MoveBookmarksPayload { ids: strings(&[" a ", "b"]), folder: Some("x / y".to_string()) }).ok().unwrap();
    assert_eq!(plan.ids, strings(&["a", "b"]));
    assert_eq!(plan.folder, "x / y");
    assert!(matches!(prepare_move_bookmarks(MoveBookmarksPayload { ids: strings(&[" "]), folder: None }), Err(FolderActionError::NoBookmarksToMove)));
    assert!(matches!(prepare_delete_bookmarks(IdsPayload { ids: vec![] }), Err(FolderActionError::NoBookmarksToDelete)));
    assert_eq!(prepare_delete_bookmarks(IdsPayload { ids: strings(&["q"]) }).ok().unwrap(), strings(&["q"]));
    assert_eq!(FolderActionError::NoBookmarksToMove.message(), "请选择要移动的书签");
    assert_eq!(FolderActionError::NoBookmarksToDelete.message(), "请选择要删除的书签");
    assert_eq!(moved_sort_orders(5, 3), vec![5, 6, 7]);
    assert_eq!(moved_sort_orders(i64::MAX, 2), vec![i64::MAX, i64::MIN]);
}

#[test]
fn reorder_puts_requested_entries_first() {
    let merged = merge_order(&strings(&["c", "x", "a", "c"]), &strings(&["a", "b", "c"]));
    assert_eq!(merged, strings(&["c", "a", "b"]));
    let request = prepare_reorder_bookmarks(ReorderBookmarksPayload { folder: Some(" A/B ".to_string()), ids: strings(&[" 1", ""]) });
    assert_eq!(request.folder, "A / B");
    assert_eq!(request.ids, strings(&["1"]));
}

#[test]
fn reorder_folder_names_come_from_last_levels() {
    assert_eq!(requested_folder_names(&strings(&["A / B", "  C ", " / ", ""])), strings(&["B", "C", "/"]));
}

#[test]
fn folder_actions_check_their_targets() {
    let target = prepare_move_folder_up(FolderPayload { folder: Some("A / B / C".to_string()) }).ok().unwrap();
    assert_eq!(target.folder, "A / B / C");
    assert_eq!(target.parent_folder, "A / B");
    let top = prepare_move_folder_up(FolderPayload { folder: Some("Top".to_string()) }).ok().unwrap();
    assert_eq!(top.parent_folder, "");
    assert!(matches!(prepare_move_folder_up(FolderPayload { folder: None }), Err(FolderActionError::NoFolderSelected)));
    assert!(matches!(
        prepare_rename_folder(RenameFolderPayload { folder: Some("A".to_string()), new_folder: Some(" A ".to_string()) }),
        Err(FolderActionError::SameFolder)
    ));
    assert_eq!(
        prepare_rename_folder(RenameFolderPayload { folder: Some("A".to_string()), new_folder: Some("B/C".to_string()) }).ok().unwrap(),
        ("A".to_string(), "B / C".to_string())
    );
    assert_eq!(
        prepare_delete_folder(FolderPayload { folder: Some("A".to_string()) }).ok().unwrap(),
        ("A".to_string(), "A / %".to_string())
    );
    assert!(matches!(prepare_delete_folder(FolderPayload { folder: Some(" / ".to_string()) }), Err(FolderActionError::NoFolderSelected)));
    assert_eq!(FolderActionError::NoFolderSelected.message(), "请选择要操作的目录");
    assert_eq!(FolderActionError::SameFolder.message(), "新目录和原目录相同");
}

#[test]
fn plans_bookmark_folder_updates() {
    let rows = vec![row("1", "A / B"), row("2", "A / B / C"), row("3", "A"), row("4", "A / Bee")];
    assert_eq!(
        plan_folder_moves(&rows, "A / B", "A"),
        vec![("1".to_string(), "A".to_string()), ("2".to_string(), "A / C".to_string())]
    );
    assert_eq!(
        plan_folder_renames(&rows, "A / B", "X"),
        vec![("1".to_string(), "X".to_string()), ("2".to_string(), "X / C".to_string())]
    );
}

#[test]
fn folder_level_keys_list_every_level() {
    let keys = folder_level_keys("A / B / C");
    assert_eq!(
        keys,
        vec![
            ("".to_string(), "A".to_string()),
            ("A".to_string(), "B".to_string()),
            ("A / B".to_string(), "C".to_string()),
        ]
    );
    assert!(folder_level_keys("").is_empty());
    assert_eq!(path_key("A / B"), Some(("A".to_string(), "B".to_string())));
    assert_eq!(path_key(" / "), None);
}

#[test]
fn plans_folder_order_rename() {
    let rows = vec![order("", "A", 0), order("A", "B", 1), order("A / B", "C", 2), order("", "D", 3)];
    let sync = plan_folder_order_rename(&rows, "A / B", "X");
    assert_eq!(sync.deletes, vec![("A".to_string(), "B".to_string()), ("A / B".to_string(), "C".to_string())]);
    assert_eq!(sync.upserts, vec![("".to_string(), "X".to_string(), 1), ("X".to_string(), "C".to_string(), 2)]);
}

#[test]
fn plans_folder_order_move_up_and_branch_delete() {
    let rows = vec![order("", "A", 0), order("A", "B", 1), order("A / B", "C", 2), order("", "D", 3)];
    let sync = plan_folder_order_move_up(&rows, "A / B", "A");
    assert_eq!(sync.deletes, vec![("A".to_string(), "B".to_string()), ("A / B".to_string(), "C".to_string())]);
    assert_eq!(sync.upserts, vec![("A".to_string(), "C".to_string(), 2)]);
    let deletes = plan_folder_order_branch_delete(&rows, "A");
    assert_eq!(
        deletes,
        vec![("".to_string(), "A".to_string()), ("A".to_string(), "B".to_string()), ("A / B".to_string(), "C".to_string())]
    );
}
