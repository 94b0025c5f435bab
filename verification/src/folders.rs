use vstd::prelude::*;
use crate::db::{clean_parts, join_spec, normalized_folder, path_sep, lemma_pairs_model_push, child_prefix_spec, folder_child_prefix, folder_parts, join_folder_path, join_folder_spec, join_prefix, pairs_model, prefix_path, replace_folder_path, replace_path_spec, split_folder_path, strings_model};
use crate::models::FolderOrder;
use crate::text::{chars_eq, chars_of, is_prefix, split_seq, starts_with_chars, string_of_range};

verus! {

broadcast use vstd::string::group_string_axioms;

/// A folder order row as plain values: parent path, name, position.
pub open spec fn order_model(row: FolderOrder) -> (Seq<char>, Seq<char>, i64) {
    (row.parent_folder@, row.folder_name@, row.sort_order)
}

/// The models of folder order rows.
pub open spec fn orders_model(rows: Seq<FolderOrder>) -> Seq<(Seq<char>, Seq<char>, i64)> {
    rows.map_values(|r: FolderOrder| order_model(r))
}

/// The models of (parent, name, position) triples.
pub open spec fn triples_model(v: Seq<(String, String, i64)>) -> Seq<(Seq<char>, Seq<char>, i64)> {
    v.map_values(|t: (String, String, i64)| (t.0@, t.1@, t.2))
}

/// The full path of a folder order row.
pub open spec fn row_path(row: (Seq<char>, Seq<char>, i64)) -> Seq<char> {
    join_folder_spec(row.0, row.1)
}

/// The (parent path, name) key of the folder at `path`; `None` for the root.
pub open spec fn path_key_spec(path: Seq<char>) -> Option<(Seq<char>, Seq<char>)> {
    let parts = folder_parts(path);
    if parts.len() == 0 {
        None
    } else {
        Some((prefix_path(parts, parts.len() - 1), parts.last()))
    }
}

/// The row that replaces `row` when its folder moves to `path`: nothing for the root.
pub open spec fn moved_row(path: Seq<char>, sort_order: i64) -> Option<(Seq<char>, Seq<char>, i64)> {
    match path_key_spec(path) {
        Some(k) => Some((k.0, k.1, sort_order)),
        None => None,
    }
}

/// The keys of the folder order rows that the levels of `folder` need: for each level,
/// the path above it and its name.
pub open spec fn level_keys_spec(folder: Seq<char>) -> Seq<(Seq<char>, Seq<char>)> {
    let parts = folder_parts(folder);
    Seq::new(parts.len(), |i: int| (prefix_path(parts, i), parts[i]))
}

/// Pushing a triple pushes its model onto the model.
pub proof fn lemma_triples_model_push(v: Seq<(String, String, i64)>, t: (String, String, i64))
    ensures
        triples_model(v.push(t)) == triples_model(v).push((t.0@, t.1@, t.2)),
{
    assert(triples_model(v.push(t)) =~= triples_model(v).push((t.0@, t.1@, t.2)));
}

/// The (parent path, name) key of the folder at `path` (see `path_key_spec`).
pub fn path_key(path: &str) -> (r: Option<(String, String)>)
    ensures
        match path_key_spec(path@) {
            None => r is None,
            Some(k) => r matches Some(p) && p.0@ == k.0 && p.1@ == k.1,
        },
{
    let parts = split_folder_path(path);
    let n = parts.len();
    if n == 0 {
        return None;
    }
    let parent = join_prefix(&parts, n - 1);
    let name = parts[n - 1].clone();
    proof {
        assert(strings_model(parts@).last() == parts@[n - 1]@);
    }
    Some((parent, name))
}

/// The keys of the folder order rows that each level of `folder` needs, from the top
/// level down.
pub fn folder_level_keys(folder: &str) -> (r: Vec<(String, String)>)
    ensures
        pairs_model(r@) == level_keys_spec(folder@),
{
    let parts = split_folder_path(folder);
    let ghost pm = strings_model(parts@);
    let mut out: Vec<(String, String)> = Vec::new();
    let mut i: usize = 0;
    while i < parts.len()
        invariant
            i <= parts@.len(),
            pm == strings_model(parts@),
            pm == folder_parts(folder@),
            pairs_model(out@) == Seq::new(i as nat, |j: int| (prefix_path(pm, j), pm[j])),
        decreases parts.len() - i,
    {
        let parent = join_prefix(&parts, i);
        let entry = (parent, parts[i].clone());
        proof {
            lemma_pairs_model_push(out@, entry);
            assert(Seq::new((i + 1) as nat, |j: int| (prefix_path(pm, j), pm[j])) =~= Seq::new(i as nat, |j: int| (prefix_path(pm, j), pm[j])).push((prefix_path(pm, i as int), pm[i as int])));
        }
        out.push(entry);
        i += 1;
    }
    out
}

/// The folder order rows to delete and to write for a change of folder paths.
pub struct FolderOrderSync {
    pub deletes: Vec<(String, String)>,
    pub upserts: Vec<(String, String, i64)>,
}

/// The rows whose path changes when `folder` is renamed to `new_folder`: their keys.
pub open spec fn rename_deletes(rows: Seq<(Seq<char>, Seq<char>, i64)>, folder: Seq<char>, new_folder: Seq<char>) -> Seq<(Seq<char>, Seq<char>)>
    decreases rows.len(),
{
    if rows.len() == 0 {
        seq![]
    } else {
        let rest = rename_deletes(rows.drop_last(), folder, new_folder);
        let row = rows.last();
        if replace_path_spec(row_path(row), folder, new_folder) == row_path(row) {
            rest
        } else {
            rest.push((row.0, row.1))
        }
    }
}

/// The rows written back when `folder` is renamed to `new_folder`: each changed row at
/// its new key, with its position kept.
pub open spec fn rename_upserts(rows: Seq<(Seq<char>, Seq<char>, i64)>, folder: Seq<char>, new_folder: Seq<char>) -> Seq<(Seq<char>, Seq<char>, i64)>
    decreases rows.len(),
{
    if rows.len() == 0 {
        seq![]
    } else {
        let rest = rename_upserts(rows.drop_last(), folder, new_folder);
        let row = rows.last();
        let updated = replace_path_spec(row_path(row), folder, new_folder);
        if updated == row_path(row) {
            rest
        } else {
            match moved_row(updated, row.2) {
                Some(t) => rest.push(t),
                None => rest,
            }
        }
    }
}

/// The changes to the folder order rows when `folder` is renamed to `new_folder`.
pub fn plan_folder_order_rename(rows: &Vec<FolderOrder>, folder: &str, new_folder: &str) -> (r: FolderOrderSync)
    ensures
        pairs_model(r.deletes@) == rename_deletes(orders_model(rows@), folder@, new_folder@),
        triples_model(r.upserts@) == rename_upserts(orders_model(rows@), folder@, new_folder@),
{
    let ghost rm = orders_model(rows@);
    let mut deletes: Vec<(String, String)> = Vec::new();
    let mut upserts: Vec<(String, String, i64)> = Vec::new();
    let mut i: usize = 0;
    while i < rows.len()
        invariant
            i <= rows@.len(),
            rm == orders_model(rows@),
            pairs_model(deletes@) == rename_deletes(rm.take(i as int), folder@, new_folder@),
            triples_model(upserts@) == rename_upserts(rm.take(i as int), folder@, new_folder@),
        decreases rows.len() - i,
    {
        proof {
            assert(rm.take(i + 1).drop_last() =~= rm.take(i as int));
            assert(rm.take(i + 1).last() == order_model(rows@[i as int]));
        }
        let row = &rows[i];
        let current = join_folder_path(row.parent_folder.as_str(), row.folder_name.as_str());
        let updated = replace_folder_path(current.as_str(), folder, new_folder);
        if updated != current {
            let key = (row.parent_folder.clone(), row.folder_name.clone());
            proof {
                lemma_pairs_model_push(deletes@, key);
            }
            deletes.push(key);
            match path_key(updated.as_str()) {
                Some((parent, name)) => {
                    let t = (parent, name, row.sort_order);
                    proof {
                        lemma_triples_model_push(upserts@, t);
                    }
                    upserts.push(t);
                },
                None => {},
            }
        }
        i += 1;
    }
    proof {
        assert(rm.take(rows@.len() as int) =~= rm);
    }
    FolderOrderSync { deletes, upserts }
}

/// The levels of a path are never empty.
proof fn lemma_clean_parts_nonempty(pieces: Seq<Seq<char>>)
    ensures
        forall|k: int| 0 <= k < clean_parts(pieces).len() ==> #[trigger] clean_parts(pieces)[k].len() > 0,
    decreases pieces.len(),
{
    if pieces.len() > 0 {
        let rest = clean_parts(pieces.drop_last());
        lemma_clean_parts_nonempty(pieces.drop_last());
        assert forall|k: int| 0 <= k < clean_parts(pieces).len() implies #[trigger] clean_parts(pieces)[k].len() > 0 by {
            if k < rest.len() {
                assert(clean_parts(pieces)[k] == rest[k]);
            }
        }
    }
}

/// Levels joined by ` / ` are at least as long as the last level.
proof fn lemma_join_len(parts: Seq<Seq<char>>)
    requires
        parts.len() > 0,
    ensures
        join_spec(parts, path_sep()).len() >= parts.last().len(),
{
}

/// The row key of a path, read back as a path, is the path in canonical form.
proof fn lemma_path_key_row_path(path: Seq<char>, sort_order: i64)
    requires
        folder_parts(path).len() > 0,
    ensures
        moved_row(path, sort_order) matches Some(t) && row_path(t) == normalized_folder(path) && t.2 == sort_order,
{
    let parts = folder_parts(path);
    let n = parts.len() as int;
    lemma_clean_parts_nonempty(split_seq(path, '/'));
    assert(parts.last().len() > 0);
    if n == 1 {
        assert(parts.take(0) =~= Seq::<Seq<char>>::empty());
        assert(prefix_path(parts, 0) == Seq::<char>::empty());
    } else {
        assert(parts.take(n - 1) =~= parts.drop_last());
        lemma_join_len(parts.drop_last());
        assert(parts.drop_last().last() == parts[n - 2]);
        assert(parts[n - 2].len() > 0);
    }
}

/// `u` is the row written back for `row` when `folder` is renamed to `new_folder`: the
/// row's path changes, `u`'s full path is the row's renamed path (in canonical form), and
/// `u` keeps the row's position.
pub open spec fn upsert_of_row(u: (Seq<char>, Seq<char>, i64), row: (Seq<char>, Seq<char>, i64), folder: Seq<char>, new_folder: Seq<char>) -> bool {
    let updated = replace_path_spec(row_path(row), folder, new_folder);
    &&& updated != row_path(row)
    &&& row_path(u) == normalized_folder(updated)
    &&& u.2 == row.2
}

/// `u` is written back for one of `rows` whose path changes (see `upsert_of_row`).
pub open spec fn from_changed_row(u: (Seq<char>, Seq<char>, i64), rows: Seq<(Seq<char>, Seq<char>, i64)>, folder: Seq<char>, new_folder: Seq<char>) -> bool {
    exists|i: int| 0 <= i < rows.len() && #[trigger] upsert_of_row(u, rows[i], folder, new_folder)
}

/// `row` is written back among `upserts` (see `upsert_of_row`).
pub open spec fn written_back(row: (Seq<char>, Seq<char>, i64), upserts: Seq<(Seq<char>, Seq<char>, i64)>, folder: Seq<char>, new_folder: Seq<char>) -> bool {
    exists|k: int| 0 <= k < upserts.len() && #[trigger] upsert_of_row(upserts[k], row, folder, new_folder)
}

/// Renaming a folder writes each changed folder order row back at its renamed path: every
/// row written back has, as its full path (parent joined with name), the renamed full path
/// of a row whose path changed, and keeps that row's position; and every row whose path
/// changes to one that is not the root is written back so.
pub proof fn lemma_rename_upserts_follow_paths(rows: Seq<(Seq<char>, Seq<char>, i64)>, folder: Seq<char>, new_folder: Seq<char>)
    ensures
        forall|k: int| 0 <= k < rename_upserts(rows, folder, new_folder).len()
            ==> from_changed_row(#[trigger] rename_upserts(rows, folder, new_folder)[k], rows, folder, new_folder),
        forall|i: int| 0 <= i < rows.len() && replace_path_spec(row_path(#[trigger] rows[i]), folder, new_folder) != row_path(rows[i])
            && folder_parts(replace_path_spec(row_path(rows[i]), folder, new_folder)).len() > 0
            ==> written_back(rows[i], rename_upserts(rows, folder, new_folder), folder, new_folder),
    decreases rows.len(),
{
    let u = rename_upserts(rows, folder, new_folder);
    if rows.len() > 0 {
        let prev = rows.drop_last();
        let rest = rename_upserts(prev, folder, new_folder);
        lemma_rename_upserts_follow_paths(prev, folder, new_folder);
        let n = rows.len() - 1;
        let row = rows.last();
        let updated = replace_path_spec(row_path(row), folder, new_folder);
        if updated != row_path(row) && folder_parts(updated).len() > 0 {
            lemma_path_key_row_path(updated, row.2);
        }
        assert(u.len() >= rest.len());
        assert forall|k: int| 0 <= k < rest.len() implies u[k] == rest[k] by {}
        assert forall|k: int| 0 <= k < u.len() implies from_changed_row(#[trigger] u[k], rows, folder, new_folder) by {
            if k < rest.len() {
                assert(from_changed_row(rest[k], prev, folder, new_folder));
                let i = choose|i: int| 0 <= i < prev.len() && #[trigger] upsert_of_row(rest[k], prev[i], folder, new_folder);
                assert(rows[i] == prev[i]);
                assert(upsert_of_row(u[k], rows[i], folder, new_folder));
            } else {
                assert(upsert_of_row(u[k], rows[n], folder, new_folder));
            }
        }
        assert forall|i: int| 0 <= i < rows.len() && replace_path_spec(row_path(#[trigger] rows[i]), folder, new_folder) != row_path(rows[i])
            && folder_parts(replace_path_spec(row_path(rows[i]), folder, new_folder)).len() > 0
            implies written_back(rows[i], u, folder, new_folder) by {
            if i < n {
                assert(rows[i] == prev[i]);
                assert(replace_path_spec(row_path(prev[i]), folder, new_folder) != row_path(prev[i]));
                assert(written_back(prev[i], rest, folder, new_folder));
                let k = choose|k: int| 0 <= k < rest.len() && #[trigger] upsert_of_row(rest[k], prev[i], folder, new_folder);
                assert(u[k] == rest[k]);
                assert(upsert_of_row(u[k], rows[i], folder, new_folder));
            } else {
                assert(upsert_of_row(u[rest.len() as int], rows[i], folder, new_folder));
            }
        }
    }
}

/// The rows of `folder` and of the folders inside it: their keys.
pub open spec fn branch_deletes(rows: Seq<(Seq<char>, Seq<char>, i64)>, folder: Seq<char>) -> Seq<(Seq<char>, Seq<char>)>
    decreases rows.len(),
{
    if rows.len() == 0 {
        seq![]
    } else {
        let rest = branch_deletes(rows.drop_last(), folder);
        let row = rows.last();
        if row_path(row) == folder || is_prefix(child_prefix_spec(folder), row_path(row)) {
            rest.push((row.0, row.1))
        } else {
            rest
        }
    }
}

/// The keys of the folder order rows to delete with `folder`.
pub fn plan_folder_order_branch_delete(rows: &Vec<FolderOrder>, folder: &str) -> (r: Vec<(String, String)>)
    ensures
        pairs_model(r@) == branch_deletes(orders_model(rows@), folder@),
{
    let ghost rm = orders_model(rows@);
    let f = chars_of(folder);
    let prefix = chars_of(folder_child_prefix(folder).as_str());
    let mut deletes: Vec<(String, String)> = Vec::new();
    let mut i: usize = 0;
    while i < rows.len()
        invariant
            i <= rows@.len(),
            rm == orders_model(rows@),
            f@ == folder@,
            prefix@ == child_prefix_spec(folder@),
            pairs_model(deletes@) == branch_deletes(rm.take(i as int), folder@),
        decreases rows.len() - i,
    {
        proof {
            assert(rm.take(i + 1).drop_last() =~= rm.take(i as int));
            assert(rm.take(i + 1).last() == order_model(rows@[i as int]));
        }
        let row = &rows[i];
        let current = chars_of(join_folder_path(row.parent_folder.as_str(), row.folder_name.as_str()).as_str());
        if chars_eq(&current, &f) || starts_with_chars(&current, &prefix) {
            let key = (row.parent_folder.clone(), row.folder_name.clone());
            proof {
                lemma_pairs_model_push(deletes@, key);
            }
            deletes.push(key);
        }
        i += 1;
    }
    proof {
        assert(rm.take(rows@.len() as int) =~= rm);
    }
    deletes
}

/// The rows of `folder` and the folders inside it: their keys, when `folder` is
/// dissolved into `parent`.
pub open spec fn move_up_deletes(rows: Seq<(Seq<char>, Seq<char>, i64)>, folder: Seq<char>) -> Seq<(Seq<char>, Seq<char>)> {
    branch_deletes(rows, folder)
}

/// The rows written back when `folder` is dissolved into `parent`: each row strictly
/// inside `folder`, moved under `parent`, with its position kept.
pub open spec fn move_up_upserts(rows: Seq<(Seq<char>, Seq<char>, i64)>, folder: Seq<char>, parent: Seq<char>) -> Seq<(Seq<char>, Seq<char>, i64)>
    decreases rows.len(),
{
    if rows.len() == 0 {
        seq![]
    } else {
        let rest = move_up_upserts(rows.drop_last(), folder, parent);
        let row = rows.last();
        let path = row_path(row);
        if path != folder && is_prefix(child_prefix_spec(folder), path) {
            match moved_row(join_folder_spec(parent, path.skip(child_prefix_spec(folder).len() as int)), row.2) {
                Some(t) => rest.push(t),
                None => rest,
            }
        } else {
            rest
        }
    }
}

/// The changes to the folder order rows when `folder` is dissolved into
/// `parent_folder`.
pub fn plan_folder_order_move_up(rows: &Vec<FolderOrder>, folder: &str, parent_folder: &str) -> (r: FolderOrderSync)
    ensures
        pairs_model(r.deletes@) == move_up_deletes(orders_model(rows@), folder@),
        triples_model(r.upserts@) == move_up_upserts(orders_model(rows@), folder@, parent_folder@),
{
    let ghost rm = orders_model(rows@);
    let f = chars_of(folder);
    let prefix = chars_of(folder_child_prefix(folder).as_str());
    let mut deletes: Vec<(String, String)> = Vec::new();
    let mut upserts: Vec<(String, String, i64)> = Vec::new();
    let mut i: usize = 0;
    while i < rows.len()
        invariant
            i <= rows@.len(),
            rm == orders_model(rows@),
            f@ == folder@,
            prefix@ == child_prefix_spec(folder@),
            pairs_model(deletes@) == branch_deletes(rm.take(i as int), folder@),
            triples_model(upserts@) == move_up_upserts(rm.take(i as int), folder@, parent_folder@),
        decreases rows.len() - i,
    {
        proof {
            assert(rm.take(i + 1).drop_last() =~= rm.take(i as int));
            assert(rm.take(i + 1).last() == order_model(rows@[i as int]));
        }
        let row = &rows[i];
        let current = chars_of(join_folder_path(row.parent_folder.as_str(), row.folder_name.as_str()).as_str());
        if chars_eq(&current, &f) {
            let key = (row.parent_folder.clone(), row.folder_name.clone());
            proof {
                lemma_pairs_model_push(deletes@, key);
            }
            deletes.push(key);
        } else if starts_with_chars(&current, &prefix) {
            let suffix = string_of_range(&current, prefix.len(), current.len());
            let updated = join_folder_path(parent_folder, suffix.as_str());
            let key = (row.parent_folder.clone(), row.folder_name.clone());
            proof {
                lemma_pairs_model_push(deletes@, key);
            }
            deletes.push(key);
            match path_key(updated.as_str()) {
                Some((parent, name)) => {
                    let t = (parent, name, row.sort_order);
                    proof {
                        lemma_triples_model_push(upserts@, t);
                    }
                    upserts.push(t);
                },
                None => {},
            }
        }
        i += 1;
    }
    proof {
        assert(rm.take(rows@.len() as int) =~= rm);
    }
    FolderOrderSync { deletes, upserts }
}

} // verus!
