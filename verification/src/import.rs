use vstd::prelude::*;
use crate::db::{wrap_add, lemma_pairs_model_push, lemma_strings_model_push, contains_string, next_order, normalize_folder_path, normalize_url, normalize_url_spec, normalized_folder, pairs_model, string_or_empty, strings_model, text_or_empty, valid_web_url, wrap_inc};
use crate::folders::{lemma_triples_model_push, folder_level_keys, level_keys_spec, orders_model, triples_model};
use crate::models::{BookmarkPayload, BulkBookmarksPayload, FolderOrder};
use crate::text::{append_str, decimal_spec, push_char, push_decimal, trim_seq, trim_str};

verus! {

broadcast use vstd::string::group_string_axioms;

/// The title given to an imported bookmark that has none.
pub const UNTITLED: &'static str = "未命名书签";

/// The models of (key, value) rows of a log in which a later row overrides an earlier one.
pub open spec fn log_model(v: Seq<(String, i64)>) -> Seq<(Seq<char>, i64)> {
    v.map_values(|p: (String, i64)| (p.0@, p.1))
}

/// The value of `k` in a log: its last row wins.
pub open spec fn log_lookup(log: Seq<(Seq<char>, i64)>, k: Seq<char>) -> Option<i64>
    decreases log.len(),
{
    if log.len() == 0 {
        None
    } else if log.last().0 == k {
        Some(log.last().1)
    } else {
        log_lookup(log.drop_last(), k)
    }
}

/// The value of `k` in a log, 0 when it has none.
pub open spec fn order_or_zero(log: Seq<(Seq<char>, i64)>, k: Seq<char>) -> i64 {
    match log_lookup(log, k) {
        Some(v) => v,
        None => 0,
    }
}

/// What the import knows of the folder order rows: the keys that exist, the next free
/// position under each parent (a log), and the rows it adds.
pub struct FolderOrderState {
    pub keys: Seq<(Seq<char>, Seq<char>)>,
    pub next: Seq<(Seq<char>, i64)>,
    pub items: Seq<(Seq<char>, Seq<char>, i64)>,
}

/// Adds the row `key` at the next free position under its parent, unless it exists.
pub open spec fn add_folder_key(st: FolderOrderState, key: (Seq<char>, Seq<char>)) -> FolderOrderState {
    if st.keys.contains(key) {
        st
    } else {
        let position = order_or_zero(st.next, key.0);
        FolderOrderState {
            keys: st.keys.push(key),
            next: st.next.push((key.0, wrap_inc(position))),
            items: st.items.push((key.0, key.1, position)),
        }
    }
}

/// Adds the rows `keys`, in order.
pub open spec fn add_folder_keys(st: FolderOrderState, keys: Seq<(Seq<char>, Seq<char>)>) -> FolderOrderState
    decreases keys.len(),
{
    if keys.len() == 0 {
        st
    } else {
        add_folder_key(add_folder_keys(st, keys.drop_last()), keys.last())
    }
}

/// The next free position under each parent folder: one past the greatest position of
/// its stored rows.
pub open spec fn folder_next_init(rows: Seq<(Seq<char>, Seq<char>, i64)>) -> Seq<(Seq<char>, i64)>
    decreases rows.len(),
{
    if rows.len() == 0 {
        seq![]
    } else {
        let log = folder_next_init(rows.drop_last());
        let row = rows.last();
        let after = wrap_inc(row.2);
        let value = match log_lookup(log, row.0) {
            Some(c) => if c >= after {
                c
            } else {
                after
            },
            None => after,
        };
        log.push((row.0, value))
    }
}

/// The state of a bulk import.
pub struct ImportState {
    /// URLs imported so far.
    pub seen: Seq<Seq<char>>,
    /// The next free bookmark position of each folder (a log).
    pub next_orders: Seq<(Seq<char>, i64)>,
    pub folders: FolderOrderState,
    /// The bookmarks to store: ID, title, URL, folder, position.
    pub items: Seq<(Seq<char>, Seq<char>, Seq<char>, Seq<char>, i64)>,
    pub duplicates: nat,
    pub skipped: nat,
}

/// The state before the first item: the stored next positions of the bookmark folders
/// and the stored folder order rows.
pub open spec fn initial_import_state(next_orders: Seq<(Seq<char>, i64)>, rows: Seq<(Seq<char>, Seq<char>, i64)>) -> ImportState {
    ImportState {
        seen: seq![],
        next_orders,
        folders: FolderOrderState {
            keys: rows.map_values(|r: (Seq<char>, Seq<char>, i64)| (r.0, r.1)),
            next: folder_next_init(rows),
            items: seq![],
        },
        items: seq![],
        duplicates: 0,
        skipped: 0,
    }
}

/// The ID of the item at `index`: its own trimmed ID, or `now-index` when that is
/// missing or blank.
pub open spec fn import_id(item: BookmarkPayload, index: nat, now: Seq<char>) -> Seq<char> {
    let fallback = now + seq!['-'] + decimal_spec(index);
    match item.id {
        Some(v) => if trim_seq(v@).len() > 0 {
            trim_seq(v@)
        } else {
            fallback
        },
        None => fallback,
    }
}

/// The trimmed title of an item, `UNTITLED` when it has none.
pub open spec fn import_title(item: BookmarkPayload) -> Seq<char> {
    trim_seq(
        match item.title {
            Some(t) => t@,
            None => UNTITLED@,
        },
    )
}

/// One item of an import: skipped when its URL is not a web URL or its title is blank,
/// counted as a duplicate when its URL is stored or imported already, and otherwise
/// taken, at the next position of its folder, with the folder order rows of its folder's
/// levels added where missing.
pub open spec fn import_one(st: ImportState, item: BookmarkPayload, index: nat, now: Seq<char>, existing: Seq<Seq<char>>) -> ImportState {
    let folder = normalized_folder(text_or_empty(item.folder));
    match normalize_url_spec(text_or_empty(item.url)) {
        None => ImportState { skipped: st.skipped + 1, ..st },
        Some(url) => if import_title(item).len() == 0 {
            ImportState { skipped: st.skipped + 1, ..st }
        } else if existing.contains(url) || st.seen.contains(url) {
            ImportState { duplicates: st.duplicates + 1, ..st }
        } else {
            let position = order_or_zero(st.next_orders, folder);
            ImportState {
                seen: st.seen.push(url),
                next_orders: st.next_orders.push((folder, wrap_inc(position))),
                folders: add_folder_keys(st.folders, level_keys_spec(folder)),
                items: st.items.push((import_id(item, index, now), import_title(item), url, folder, position)),
                duplicates: st.duplicates,
                skipped: st.skipped,
            }
        },
    }
}

/// The state after importing `items` in order, the item at index `i` numbered `i`.
pub open spec fn import_all(items: Seq<BookmarkPayload>, now: Seq<char>, existing: Seq<Seq<char>>, init: ImportState) -> ImportState
    decreases items.len(),
{
    if items.len() == 0 {
        init
    } else {
        import_one(import_all(items.drop_last(), now, existing, init), items.last(), (items.len() - 1) as nat, now, existing)
    }
}

/// The models of the bookmark rows of an import.
pub open spec fn rows5_model(v: Seq<(String, String, String, String, i64)>) -> Seq<(Seq<char>, Seq<char>, Seq<char>, Seq<char>, i64)> {
    v.map_values(|t: (String, String, String, String, i64)| (t.0@, t.1@, t.2@, t.3@, t.4))
}

/// The IDs of the bookmark rows of an import.
pub open spec fn row_ids(v: Seq<(Seq<char>, Seq<char>, Seq<char>, Seq<char>, i64)>) -> Seq<Seq<char>> {
    v.map_values(|t: (Seq<char>, Seq<char>, Seq<char>, Seq<char>, i64)| t.0)
}

/// The URLs of the bookmark rows of an import.
pub open spec fn row_urls(v: Seq<(Seq<char>, Seq<char>, Seq<char>, Seq<char>, i64)>) -> Seq<Seq<char>> {
    v.map_values(|t: (Seq<char>, Seq<char>, Seq<char>, Seq<char>, i64)| t.2)
}

proof fn lemma_log_model_push(v: Seq<(String, i64)>, p: (String, i64))
    ensures
        log_model(v.push(p)) == log_model(v).push((p.0@, p.1)),
{
    assert(log_model(v.push(p)) =~= log_model(v).push((p.0@, p.1)));
}

proof fn lemma_rows5_model_push(v: Seq<(String, String, String, String, i64)>, t: (String, String, String, String, i64))
    ensures
        rows5_model(v.push(t)) == rows5_model(v).push((t.0@, t.1@, t.2@, t.3@, t.4)),
{
    assert(rows5_model(v.push(t)) =~= rows5_model(v).push((t.0@, t.1@, t.2@, t.3@, t.4)));
}

/// The value of `k` in the log `log` (its last row for `k`).
pub fn log_find(log: &Vec<(String, i64)>, k: &String) -> (r: Option<i64>)
    ensures
        r == log_lookup(log_model(log@), k@),
{
    let ghost m = log_model(log@);
    let mut i: usize = log.len();
    proof {
        assert(m.take(i as int) =~= m);
    }
    while i > 0
        invariant
            i <= log@.len(),
            m == log_model(log@),
            log_lookup(m, k@) == log_lookup(m.take(i as int), k@),
        decreases i,
    {
        let j = i - 1;
        proof {
            assert(m.take(i as int).drop_last() =~= m.take(j as int));
            assert(m.take(i as int).last() == (log@[j as int].0@, log@[j as int].1));
        }
        if log[j].0 == *k {
            return Some(log[j].1);
        }
        i = j;
    }
    None
}

/// Does `v` hold the pair `k`?
pub fn contains_pair(v: &Vec<(String, String)>, k: &(String, String)) -> (r: bool)
    ensures
        r == pairs_model(v@).contains((k.0@, k.1@)),
{
    let mut i: usize = 0;
    while i < v.len()
        invariant
            i <= v@.len(),
            forall|j: int| 0 <= j < i ==> pairs_model(v@)[j] != (k.0@, k.1@),
        decreases v.len() - i,
    {
        if v[i].0 == k.0 && v[i].1 == k.1 {
            proof {
                assert(pairs_model(v@)[i as int] == (k.0@, k.1@));
            }
            return true;
        }
        proof {
            assert(pairs_model(v@)[i as int] == (v@[i as int].0@, v@[i as int].1@));
        }
        i += 1;
    }
    false
}

/// Adds the folder order rows that the levels of `folder` need and that do not exist yet,
/// each at the next free position under its parent.
pub fn collect_missing_folder_orders(folder: &str, keys: &mut Vec<(String, String)>, next: &mut Vec<(String, i64)>, items: &mut Vec<(String, String, i64)>)
    ensures
        ({
            let st = add_folder_keys(
                FolderOrderState { keys: pairs_model(old(keys)@), next: log_model(old(next)@), items: triples_model(old(items)@) },
                level_keys_spec(folder@),
            );
            &&& pairs_model(final(keys)@) == st.keys
            &&& log_model(final(next)@) == st.next
            &&& triples_model(final(items)@) == st.items
        }),
{
    let levels = folder_level_keys(folder);
    let ghost lm = pairs_model(levels@);
    let ghost st0 = FolderOrderState { keys: pairs_model(keys@), next: log_model(next@), items: triples_model(items@) };
    let mut i: usize = 0;
    while i < levels.len()
        invariant
            i <= levels@.len(),
            lm == pairs_model(levels@),
            lm == level_keys_spec(folder@),
            ({
                let st = add_folder_keys(st0, lm.take(i as int));
                &&& pairs_model(keys@) == st.keys
                &&& log_model(next@) == st.next
                &&& triples_model(items@) == st.items
            }),
        decreases levels.len() - i,
    {
        proof {
            assert(lm.take(i + 1).drop_last() =~= lm.take(i as int));
            assert(lm.take(i + 1).last() == (levels@[i as int].0@, levels@[i as int].1@));
        }
        let key = &levels[i];
        if !contains_pair(keys, key) {
            let position = match log_find(next, &key.0) {
                Some(v) => v,
                None => 0,
            };
            let after = next_order(position);
            let e1 = (key.0.clone(), after);
            let e2 = (key.0.clone(), key.1.clone());
            let e3 = (key.0.clone(), key.1.clone(), position);
            proof {
                lemma_log_model_push(next@, e1);
                lemma_pairs_model_push(keys@, e2);
                lemma_triples_model_push(items@, e3);
            }
            next.push(e1);
            keys.push(e2);
            items.push(e3);
        }
        i += 1;
    }
    proof {
        assert(lm.take(levels@.len() as int) =~= lm);
    }
}

/// What a bulk import stores and reports.
pub struct BulkImportPlan {
    /// The bookmarks to store: ID, title, URL, folder, position.
    pub valid_items: Vec<(String, String, String, String, i64)>,
    /// The IDs of those bookmarks, in the same order.
    pub imported_ids: Vec<String>,
    /// The folder order rows to add: parent, name, position.
    pub folder_order_items: Vec<(String, String, i64)>,
    pub duplicate_count: usize,
    pub skipped_count: usize,
}

/// The next free positions under each parent folder, from the stored folder order rows.
pub fn folder_next_orders(rows: &Vec<FolderOrder>) -> (r: Vec<(String, i64)>)
    ensures
        log_model(r@) == folder_next_init(orders_model(rows@)),
{
    let ghost rm = orders_model(rows@);
    let mut log: Vec<(String, i64)> = Vec::new();
    let mut i: usize = 0;
    while i < rows.len()
        invariant
            i <= rows@.len(),
            rm == orders_model(rows@),
            log_model(log@) == folder_next_init(rm.take(i as int)),
        decreases rows.len() - i,
    {
        proof {
            assert(rm.take(i + 1).drop_last() =~= rm.take(i as int));
            assert(rm.take(i + 1).last() == (rows@[i as int].parent_folder@, rows@[i as int].folder_name@, rows@[i as int].sort_order));
        }
        let row = &rows[i];
        let after = next_order(row.sort_order);
        let value = match log_find(&log, &row.parent_folder) {
            Some(c) => if c >= after {
                c
            } else {
                after
            },
            None => after,
        };
        let e = (row.parent_folder.clone(), value);
        proof {
            lemma_log_model_push(log@, e);
        }
        log.push(e);
        i += 1;
    }
    proof {
        assert(rm.take(rows@.len() as int) =~= rm);
    }
    log
}

/// The keys of the stored folder order rows.
pub fn folder_order_keys(rows: &Vec<FolderOrder>) -> (r: Vec<(String, String)>)
    ensures
        pairs_model(r@) == orders_model(rows@).map_values(|t: (Seq<char>, Seq<char>, i64)| (t.0, t.1)),
{
    let mut keys: Vec<(String, String)> = Vec::new();
    let mut i: usize = 0;
    while i < rows.len()
        invariant
            i <= rows@.len(),
            pairs_model(keys@) == orders_model(rows@).take(i as int).map_values(|t: (Seq<char>, Seq<char>, i64)| (t.0, t.1)),
        decreases rows.len() - i,
    {
        let e = (rows[i].parent_folder.clone(), rows[i].folder_name.clone());
        proof {
            lemma_pairs_model_push(keys@, e);
            assert(orders_model(rows@).take(i + 1).map_values(|t: (Seq<char>, Seq<char>, i64)| (t.0, t.1)) =~= orders_model(rows@).take(i as int).map_values(|t: (Seq<char>, Seq<char>, i64)| (t.0, t.1)).push((e.0@, e.1@)));
        }
        keys.push(e);
        i += 1;
    }
    proof {
        assert(orders_model(rows@).take(rows@.len() as int) =~= orders_model(rows@));
    }
    keys
}

/// A copy of a log.
fn copy_log(v: &Vec<(String, i64)>) -> (r: Vec<(String, i64)>)
    ensures
        log_model(r@) == log_model(v@),
{
    let mut out: Vec<(String, i64)> = Vec::new();
    let mut i: usize = 0;
    while i < v.len()
        invariant
            i <= v@.len(),
            log_model(out@) == log_model(v@).take(i as int),
        decreases v.len() - i,
    {
        let e = (v[i].0.clone(), v[i].1);
        proof {
            lemma_log_model_push(out@, e);
            assert(log_model(v@).take(i + 1) =~= log_model(v@).take(i as int).push((e.0@, e.1)));
        }
        out.push(e);
        i += 1;
    }
    proof {
        assert(log_model(v@).take(v@.len() as int) =~= log_model(v@));
    }
    out
}

/// Each import counts every item once: as taken, as a duplicate or as skipped.
pub proof fn lemma_import_counts(items: Seq<BookmarkPayload>, now: Seq<char>, existing: Seq<Seq<char>>, init: ImportState)
    ensures
        ({
            let st = import_all(items, now, existing, init);
            st.items.len() + st.duplicates + st.skipped == init.items.len() + init.duplicates + init.skipped + items.len()
        }),
    decreases items.len(),
{
    if items.len() > 0 {
        lemma_import_counts(items.drop_last(), now, existing, init);
    }
}

/// The URLs that an import takes are web URLs, none of them stored already, no two the
/// same; the import's record of seen URLs is exactly the URLs it took.
pub proof fn lemma_import_urls_fresh(
    items: Seq<BookmarkPayload>,
    now: Seq<char>,
    existing: Seq<Seq<char>>,
    next_orders: Seq<(Seq<char>, i64)>,
    rows: Seq<(Seq<char>, Seq<char>, i64)>,
)
    ensures
        ({
            let st = import_all(items, now, existing, initial_import_state(next_orders, rows));
            &&& st.seen == row_urls(st.items)
            &&& forall|j: int| 0 <= j < st.items.len() ==> !existing.contains(#[trigger] st.items[j].2) && valid_web_url(st.items[j].2)
            &&& forall|a: int, b: int| 0 <= a < b < st.items.len() ==> #[trigger] st.items[a].2 != #[trigger] st.items[b].2
        }),
    decreases items.len(),
{
    let init = initial_import_state(next_orders, rows);
    if items.len() == 0 {
        assert(row_urls(init.items) =~= init.seen);
    } else {
        lemma_import_urls_fresh(items.drop_last(), now, existing, next_orders, rows);
        let prev = import_all(items.drop_last(), now, existing, init);
        let st = import_all(items, now, existing, init);
        let item = items.last();
        match normalize_url_spec(text_or_empty(item.url)) {
            None => {},
            Some(url) => {
                if import_title(item).len() > 0 && !(existing.contains(url) || prev.seen.contains(url)) {
                    assert(st.items == prev.items.push(st.items.last()));
                    assert(row_urls(st.items) =~= row_urls(prev.items).push(url));
                    assert forall|a: int, b: int| 0 <= a < b < st.items.len() implies #[trigger] st.items[a].2 != #[trigger] st.items[b].2 by {
                        if b == st.items.len() - 1 {
                            assert(row_urls(prev.items)[a] == prev.items[a].2);
                        } else {
                            assert(prev.items[a] == st.items[a]);
                            assert(prev.items[b] == st.items[b]);
                        }
                    }
                    assert forall|j: int| 0 <= j < st.items.len() implies !existing.contains(#[trigger] st.items[j].2) && valid_web_url(st.items[j].2) by {
                        if j < st.items.len() - 1 {
                            assert(prev.items[j] == st.items[j]);
                        }
                    }
                }
            },
        }
    }
}

/// The keys of added folder order rows.
pub open spec fn added_keys(items: Seq<(Seq<char>, Seq<char>, i64)>) -> Seq<(Seq<char>, Seq<char>)> {
    items.map_values(|t: (Seq<char>, Seq<char>, i64)| (t.0, t.1))
}

/// The folder order state knows the stored keys `base` and the keys it added, and it
/// added each key once and none of `base`.
pub open spec fn adds_fresh_keys(st: FolderOrderState, base: Seq<(Seq<char>, Seq<char>)>) -> bool {
    &&& st.keys == base + added_keys(st.items)
    &&& added_keys(st.items).no_duplicates()
    &&& forall|j: int| 0 <= j < st.items.len() ==> !base.contains(#[trigger] added_keys(st.items)[j])
}

proof fn lemma_add_folder_key_fresh(st: FolderOrderState, base: Seq<(Seq<char>, Seq<char>)>, key: (Seq<char>, Seq<char>))
    requires
        adds_fresh_keys(st, base),
    ensures
        adds_fresh_keys(add_folder_key(st, key), base),
{
    if !st.keys.contains(key) {
        let r = add_folder_key(st, key);
        assert(added_keys(r.items) =~= added_keys(st.items).push(key));
        assert(r.keys =~= base + added_keys(r.items));
        assert forall|j: int| 0 <= j < added_keys(st.items).len() implies added_keys(st.items)[j] != key by {
            assert(st.keys[base.len() + j] == added_keys(st.items)[j]);
        }
        assert forall|j: int| 0 <= j < r.items.len() implies !base.contains(#[trigger] added_keys(r.items)[j]) by {
            if j == r.items.len() - 1 {
                if base.contains(key) {
                    let k = choose|k: int| 0 <= k < base.len() && base[k] == key;
                    assert(st.keys[k] == key);
                }
            } else {
                assert(added_keys(r.items)[j] == added_keys(st.items)[j]);
            }
        }
    }
}

proof fn lemma_add_folder_keys_fresh(st: FolderOrderState, base: Seq<(Seq<char>, Seq<char>)>, keys: Seq<(Seq<char>, Seq<char>)>)
    requires
        adds_fresh_keys(st, base),
    ensures
        adds_fresh_keys(add_folder_keys(st, keys), base),
    decreases keys.len(),
{
    if keys.len() > 0 {
        lemma_add_folder_keys_fresh(st, base, keys.drop_last());
        lemma_add_folder_key_fresh(add_folder_keys(st, keys.drop_last()), base, keys.last());
    }
}

/// An import adds a folder order row only where none is stored, and each row once: its
/// known keys are the stored ones followed by the added ones, which are all different and
/// none of them stored.
pub proof fn lemma_import_folder_rows_fresh(
    items: Seq<BookmarkPayload>,
    now: Seq<char>,
    existing: Seq<Seq<char>>,
    next_orders: Seq<(Seq<char>, i64)>,
    rows: Seq<(Seq<char>, Seq<char>, i64)>,
)
    ensures
        adds_fresh_keys(
            import_all(items, now, existing, initial_import_state(next_orders, rows)).folders,
            rows.map_values(|r: (Seq<char>, Seq<char>, i64)| (r.0, r.1)),
        ),
    decreases items.len(),
{
    let init = initial_import_state(next_orders, rows);
    let base = rows.map_values(|r: (Seq<char>, Seq<char>, i64)| (r.0, r.1));
    if items.len() == 0 {
        assert(added_keys(init.folders.items) =~= Seq::<(Seq<char>, Seq<char>)>::empty());
        assert(init.folders.keys =~= base + added_keys(init.folders.items));
    } else {
        lemma_import_folder_rows_fresh(items.drop_last(), now, existing, next_orders, rows);
        let prev = import_all(items.drop_last(), now, existing, init);
        let folder = normalized_folder(text_or_empty(items.last().folder));
        lemma_add_folder_keys_fresh(prev.folders, base, level_keys_spec(folder));
    }
}

/// How many of the bookmark rows go into `folder`.
pub open spec fn count_in_folder(rows: Seq<(Seq<char>, Seq<char>, Seq<char>, Seq<char>, i64)>, folder: Seq<char>) -> nat
    decreases rows.len(),
{
    if rows.len() == 0 {
        0
    } else {
        count_in_folder(rows.drop_last(), folder) + if rows.last().3 == folder { 1nat } else { 0nat }
    }
}

proof fn lemma_log_lookup_push(log: Seq<(Seq<char>, i64)>, k: Seq<char>, v: i64, f: Seq<char>)
    ensures
        order_or_zero(log.push((k, v)), f) == if k == f { v } else { order_or_zero(log, f) },
{
    let l = log.push((k, v));
    assert(l.last() == (k, v));
    assert(l.drop_last() =~= log);
}

proof fn lemma_import_positions_inv(
    items: Seq<BookmarkPayload>,
    now: Seq<char>,
    existing: Seq<Seq<char>>,
    next_orders: Seq<(Seq<char>, i64)>,
    rows: Seq<(Seq<char>, Seq<char>, i64)>,
)
    ensures
        ({
            let st = import_all(items, now, existing, initial_import_state(next_orders, rows));
            &&& forall|f: Seq<char>| #[trigger] order_or_zero(st.next_orders, f) == wrap_add(order_or_zero(next_orders, f), count_in_folder(st.items, f))
            &&& forall|j: int| 0 <= j < st.items.len() ==> #[trigger] st.items[j].4 == wrap_add(order_or_zero(next_orders, st.items[j].3), count_in_folder(st.items.take(j), st.items[j].3))
        }),
    decreases items.len(),
{
    let init = initial_import_state(next_orders, rows);
    if items.len() == 0 {
        assert forall|f: Seq<char>| #[trigger] order_or_zero(init.next_orders, f) == wrap_add(order_or_zero(next_orders, f), count_in_folder(init.items, f)) by {}
    } else {
        lemma_import_positions_inv(items.drop_last(), now, existing, next_orders, rows);
        let prev = import_all(items.drop_last(), now, existing, init);
        let st = import_all(items, now, existing, init);
        let item = items.last();
        let folder = normalized_folder(text_or_empty(item.folder));
        match normalize_url_spec(text_or_empty(item.url)) {
            None => {},
            Some(url) => {
                if import_title(item).len() > 0 && !(existing.contains(url) || prev.seen.contains(url)) {
                    let position = order_or_zero(prev.next_orders, folder);
                    let row = st.items.last();
                    assert(st.items == prev.items.push(row));
                    assert(row.3 == folder && row.4 == position);
                    assert(st.items.drop_last() =~= prev.items);
                    assert forall|f: Seq<char>| #[trigger] order_or_zero(st.next_orders, f) == wrap_add(order_or_zero(next_orders, f), count_in_folder(st.items, f)) by {
                        lemma_log_lookup_push(prev.next_orders, folder, wrap_inc(position), f);
                        assert(order_or_zero(prev.next_orders, f) == wrap_add(order_or_zero(next_orders, f), count_in_folder(prev.items, f)));
                    }
                    assert forall|j: int| 0 <= j < st.items.len() implies #[trigger] st.items[j].4 == wrap_add(order_or_zero(next_orders, st.items[j].3), count_in_folder(st.items.take(j), st.items[j].3)) by {
                        if j < prev.items.len() {
                            assert(st.items[j] == prev.items[j]);
                            assert(st.items.take(j) =~= prev.items.take(j));
                        } else {
                            assert(st.items.take(j) =~= prev.items);
                            assert(order_or_zero(prev.next_orders, folder) == wrap_add(order_or_zero(next_orders, folder), count_in_folder(prev.items, folder)));
                        }
                    }
                }
            },
        }
    }
}

/// An import appends the bookmarks it takes to their folders in order: the bookmark taken
/// into a folder after `k` earlier ones of the same import gets the position `k` steps
/// after the folder's stored next position (0 for a folder without bookmarks).
pub proof fn lemma_import_positions(
    items: Seq<BookmarkPayload>,
    now: Seq<char>,
    existing: Seq<Seq<char>>,
    next_orders: Seq<(Seq<char>, i64)>,
    rows: Seq<(Seq<char>, Seq<char>, i64)>,
)
    ensures
        ({
            let st = import_all(items, now, existing, initial_import_state(next_orders, rows));
            forall|j: int| 0 <= j < st.items.len() ==> #[trigger] st.items[j].4 == wrap_add(order_or_zero(next_orders, st.items[j].3), count_in_folder(st.items.take(j), st.items[j].3))
        }),
{
    lemma_import_positions_inv(items, now, existing, next_orders, rows);
}

/// Plans a bulk import of `payload` (see `import_all`): `now` names the import in the
/// IDs it makes up, `existing_urls` are the stored URLs, `next_orders` the next free
/// position of each bookmark folder and `folder_orders` the stored folder order rows.
pub fn plan_bulk_import(
    payload: &BulkBookmarksPayload,
    now: &str,
    existing_urls: &Vec<String>,
    next_orders: &Vec<(String, i64)>,
    folder_orders: &Vec<FolderOrder>,
) -> (r: BulkImportPlan)
    ensures
        ({
            let st = import_all(
                payload.bookmarks@,
                now@,
                strings_model(existing_urls@),
                initial_import_state(log_model(next_orders@), orders_model(folder_orders@)),
            );
            &&& rows5_model(r.valid_items@) == st.items
            &&& strings_model(r.imported_ids@) == row_ids(st.items)
            &&& triples_model(r.folder_order_items@) == st.folders.items
            &&& r.duplicate_count == st.duplicates
            &&& r.skipped_count == st.skipped
        }),
{
    let items = &payload.bookmarks;
    let ghost existing = strings_model(existing_urls@);
    let ghost init = initial_import_state(log_model(next_orders@), orders_model(folder_orders@));
    let mut seen: Vec<String> = Vec::new();
    let mut orders = copy_log(next_orders);
    let mut keys = folder_order_keys(folder_orders);
    let mut folder_next = folder_next_orders(folder_orders);
    let mut folder_items: Vec<(String, String, i64)> = Vec::new();
    let mut valid_items: Vec<(String, String, String, String, i64)> = Vec::new();
    let mut imported_ids: Vec<String> = Vec::new();
    let mut duplicate_count: usize = 0;
    let mut skipped_count: usize = 0;
    let mut i: usize = 0;
    while i < items.len()
        invariant
            i <= items@.len(),
            items@ == payload.bookmarks@,
            existing == strings_model(existing_urls@),
            init == initial_import_state(log_model(next_orders@), orders_model(folder_orders@)),
            ({
                let st = import_all(items@.take(i as int), now@, existing, init);
                &&& strings_model(seen@) == st.seen
                &&& log_model(orders@) == st.next_orders
                &&& pairs_model(keys@) == st.folders.keys
                &&& log_model(folder_next@) == st.folders.next
                &&& triples_model(folder_items@) == st.folders.items
                &&& rows5_model(valid_items@) == st.items
                &&& strings_model(imported_ids@) == row_ids(st.items)
                &&& duplicate_count == st.duplicates
                &&& skipped_count == st.skipped
                &&& st.items.len() + st.duplicates + st.skipped == i
            }),
        decreases items.len() - i,
    {
        proof {
            assert(items@.take(i + 1).drop_last() =~= items@.take(i as int));
            assert(items@.take(i + 1).last() == items@[i as int]);
            lemma_import_counts(items@.take(i as int), now@, existing, init);
        }
        let ghost prev = import_all(items@.take(i as int), now@, existing, init);
        let ghost next_state = import_one(prev, items@[i as int], i as nat, now@, existing);
        assert(import_all(items@.take(i + 1), now@, existing, init) == next_state);
        let item = &items[i];
        let url = normalize_url(string_or_empty(&item.url).as_str());
        let title = match &item.title {
            Some(t) => trim_str(t.as_str()),
            None => trim_str(UNTITLED),
        };
        match url {
            None => {
                skipped_count += 1;
            },
            Some(url) => {
                if title.as_str().is_empty() {
                    skipped_count += 1;
                } else if contains_string(existing_urls, &url) || contains_string(&seen, &url) {
                    duplicate_count += 1;
                } else {
                    let folder = normalize_folder_path(string_or_empty(&item.folder).as_str());
                    let id = match &item.id {
                        Some(v) => {
                            let t = trim_str(v.as_str());
                            if t.as_str().is_empty() {
                                let mut s = String::new();
                                append_str(&mut s, now);
                                push_char(&mut s, '-');
                                push_decimal(&mut s, i as u64);
                                s
                            } else {
                                t
                            }
                        },
                        None => {
                            let mut s = String::new();
                            append_str(&mut s, now);
                            push_char(&mut s, '-');
                            push_decimal(&mut s, i as u64);
                            s
                        },
                    };
                    let position = match log_find(&orders, &folder) {
                        Some(v) => v,
                        None => 0,
                    };
                    let after = next_order(position);
                    let order_entry = (folder.clone(), after);
                    let seen_url = url.clone();
                    proof {
                        lemma_strings_model_push(seen@, seen_url);
                        lemma_log_model_push(orders@, order_entry);
                    }
                    seen.push(seen_url);
                    orders.push(order_entry);
                    collect_missing_folder_orders(folder.as_str(), &mut keys, &mut folder_next, &mut folder_items);
                    assert(id@ == import_id(items@[i as int], i as nat, now@));
                    assert(title@ == import_title(items@[i as int]));
                    assert(folder@ == normalized_folder(text_or_empty(items@[i as int].folder)));
                    assert(position == order_or_zero(prev.next_orders, folder@));
                    let row = (id.clone(), title, url, folder, position);
                    proof {
                        lemma_strings_model_push(imported_ids@, id);
                        lemma_rows5_model_push(valid_items@, row);
                        assert(row_ids(rows5_model(valid_items@).push((row.0@, row.1@, row.2@, row.3@, row.4))) =~= row_ids(rows5_model(valid_items@)).push(id@));
                    }
                    imported_ids.push(id);
                    valid_items.push(row);
                }
            },
        }
        i += 1;
    }
    proof {
        assert(items@.take(items@.len() as int) =~= items@);
    }
    BulkImportPlan { valid_items, imported_ids, folder_order_items: folder_items, duplicate_count, skipped_count }
}


/// How many of the folder order rows are under `parent`.
pub open spec fn count_under(rows: Seq<(Seq<char>, Seq<char>, i64)>, parent: Seq<char>) -> nat
    decreases rows.len(),
{
    if rows.len() == 0 {
        0
    } else {
        count_under(rows.drop_last(), parent) + if rows.last().0 == parent { 1nat } else { 0nat }
    }
}

/// The added rows of `st` take the positions under their parent one after another,
/// starting at the parent's next position in `base`, and the next position of each parent
/// is past them.
pub open spec fn positions_follow(st: FolderOrderState, base: Seq<(Seq<char>, i64)>) -> bool {
    &&& forall|p: Seq<char>| #[trigger] order_or_zero(st.next, p) == wrap_add(order_or_zero(base, p), count_under(st.items, p))
    &&& forall|j: int| 0 <= j < st.items.len() ==> #[trigger] st.items[j].2 == wrap_add(order_or_zero(base, st.items[j].0), count_under(st.items.take(j), st.items[j].0))
}

proof fn lemma_add_folder_key_positions(st: FolderOrderState, base: Seq<(Seq<char>, i64)>, key: (Seq<char>, Seq<char>))
    requires
        positions_follow(st, base),
    ensures
        positions_follow(add_folder_key(st, key), base),
{
    if !st.keys.contains(key) {
        let position = order_or_zero(st.next, key.0);
        let r = add_folder_key(st, key);
        let row = (key.0, key.1, position);
        assert(r.items == st.items.push(row));
        assert(r.items.drop_last() =~= st.items);
        assert forall|p: Seq<char>| #[trigger] order_or_zero(r.next, p) == wrap_add(order_or_zero(base, p), count_under(r.items, p)) by {
            lemma_log_lookup_push(st.next, key.0, wrap_inc(position), p);
            assert(order_or_zero(st.next, p) == wrap_add(order_or_zero(base, p), count_under(st.items, p)));
        }
        assert forall|j: int| 0 <= j < r.items.len() implies #[trigger] r.items[j].2 == wrap_add(order_or_zero(base, r.items[j].0), count_under(r.items.take(j), r.items[j].0)) by {
            if j < st.items.len() {
                assert(r.items[j] == st.items[j]);
                assert(r.items.take(j) =~= st.items.take(j));
            } else {
                assert(r.items.take(j) =~= st.items);
                assert(order_or_zero(st.next, key.0) == wrap_add(order_or_zero(base, key.0), count_under(st.items, key.0)));
            }
        }
    }
}

proof fn lemma_add_folder_keys_positions(st: FolderOrderState, base: Seq<(Seq<char>, i64)>, keys: Seq<(Seq<char>, Seq<char>)>)
    requires
        positions_follow(st, base),
    ensures
        positions_follow(add_folder_keys(st, keys), base),
    decreases keys.len(),
{
    if keys.len() > 0 {
        lemma_add_folder_keys_positions(st, base, keys.drop_last());
        lemma_add_folder_key_positions(add_folder_keys(st, keys.drop_last()), base, keys.last());
    }
}

proof fn lemma_import_folder_positions_inv(
    items: Seq<BookmarkPayload>,
    now: Seq<char>,
    existing: Seq<Seq<char>>,
    next_orders: Seq<(Seq<char>, i64)>,
    rows: Seq<(Seq<char>, Seq<char>, i64)>,
)
    ensures
        positions_follow(import_all(items, now, existing, initial_import_state(next_orders, rows)).folders, folder_next_init(rows)),
    decreases items.len(),
{
    let init = initial_import_state(next_orders, rows);
    if items.len() == 0 {
        assert forall|p: Seq<char>| #[trigger] order_or_zero(init.folders.next, p) == wrap_add(order_or_zero(folder_next_init(rows), p), count_under(init.folders.items, p)) by {}
    } else {
        lemma_import_folder_positions_inv(items.drop_last(), now, existing, next_orders, rows);
        let prev = import_all(items.drop_last(), now, existing, init);
        let folder = normalized_folder(text_or_empty(items.last().folder));
        lemma_add_folder_keys_positions(prev.folders, folder_next_init(rows), level_keys_spec(folder));
    }
}

/// An import adds the missing folder order rows under each parent one after another: the
/// row added under a parent after `k` rows added under the same parent earlier in the
/// import gets the position `k` steps after that parent's stored next position (one past
/// the greatest stored position under it, 0 where there is none).
pub proof fn lemma_import_folder_positions(
    items: Seq<BookmarkPayload>,
    now: Seq<char>,
    existing: Seq<Seq<char>>,
    next_orders: Seq<(Seq<char>, i64)>,
    rows: Seq<(Seq<char>, Seq<char>, i64)>,
)
    ensures
        ({
            let added = import_all(items, now, existing, initial_import_state(next_orders, rows)).folders.items;
            forall|j: int| 0 <= j < added.len() ==> #[trigger] added[j].2 == wrap_add(order_or_zero(folder_next_init(rows), added[j].0), count_under(added.take(j), added[j].0))
        }),
{
    lemma_import_folder_positions_inv(items, now, existing, next_orders, rows);
}

} // verus!
