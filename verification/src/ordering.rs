use vstd::prelude::*;
use crate::db::{fill_existing, merge_order_spec, select_requested};

verus! {

proof fn lemma_select_requested(requested: Seq<Seq<char>>, existing: Seq<Seq<char>>)
    ensures
        select_requested(requested, existing).no_duplicates(),
        forall|x: Seq<char>| #[trigger] select_requested(requested, existing).contains(x) <==> requested.contains(x) && existing.contains(x),
    decreases requested.len(),
{
    if requested.len() > 0 {
        let rq = requested.drop_last();
        let acc = select_requested(rq, existing);
        let last = requested.last();
        lemma_select_requested(rq, existing);
        let sel = select_requested(requested, existing);
        assert forall|x: Seq<char>| #[trigger] sel.contains(x) <==> requested.contains(x) && existing.contains(x) by {
            if requested.contains(x) {
                let k = choose|k: int| 0 <= k < requested.len() && requested[k] == x;
                if k < requested.len() - 1 {
                    assert(rq[k] == x);
                }
            }
            if rq.contains(x) {
                let k = choose|k: int| 0 <= k < rq.len() && rq[k] == x;
                assert(requested[k] == x);
            }
            if existing.contains(last) && !acc.contains(last) {
                assert(sel == acc.push(last));
                if acc.contains(x) {
                    let k = choose|k: int| 0 <= k < acc.len() && acc[k] == x;
                    assert(sel[k] == x);
                }
                if sel.contains(x) {
                    let k = choose|k: int| 0 <= k < sel.len() && sel[k] == x;
                    if k < acc.len() {
                        assert(acc[k] == x);
                    }
                }
                assert(sel[acc.len() as int] == last);
            }
        }
        if existing.contains(last) && !acc.contains(last) {
            assert forall|a: int, b: int| 0 <= a < sel.len() && 0 <= b < sel.len() && a != b implies sel[a] != sel[b] by {
                if a < acc.len() && b < acc.len() {
                } else if a < acc.len() {
                    assert(acc.contains(sel[a]));
                } else if b < acc.len() {
                    assert(acc.contains(sel[b]));
                }
            }
        }
    }
}

proof fn lemma_fill_existing(acc: Seq<Seq<char>>, existing: Seq<Seq<char>>)
    requires
        acc.no_duplicates(),
    ensures
        fill_existing(acc, existing).no_duplicates(),
        fill_existing(acc, existing).len() >= acc.len(),
        fill_existing(acc, existing).take(acc.len() as int) == acc,
        forall|x: Seq<char>| #[trigger] fill_existing(acc, existing).contains(x) <==> acc.contains(x) || existing.contains(x),
    decreases existing.len(),
{
    if existing.len() == 0 {
        assert(acc.take(acc.len() as int) =~= acc);
    } else {
        let ex = existing.drop_last();
        let last = existing.last();
        lemma_fill_existing(acc, ex);
        let a = fill_existing(acc, ex);
        let f = fill_existing(acc, existing);
        assert forall|x: Seq<char>| #[trigger] f.contains(x) <==> acc.contains(x) || existing.contains(x) by {
            if existing.contains(x) {
                let k = choose|k: int| 0 <= k < existing.len() && existing[k] == x;
                if k < existing.len() - 1 {
                    assert(ex[k] == x);
                }
            }
            if ex.contains(x) {
                let k = choose|k: int| 0 <= k < ex.len() && ex[k] == x;
                assert(existing[k] == x);
            }
            if !a.contains(last) {
                assert(f == a.push(last));
                if a.contains(x) {
                    let k = choose|k: int| 0 <= k < a.len() && a[k] == x;
                    assert(f[k] == x);
                }
                if f.contains(x) {
                    let k = choose|k: int| 0 <= k < f.len() && f[k] == x;
                    if k < a.len() {
                        assert(a[k] == x);
                    }
                }
                assert(f[a.len() as int] == last);
            }
        }
        if !a.contains(last) {
            assert(f.take(acc.len() as int) =~= a.take(acc.len() as int));
            assert forall|i: int, j: int| 0 <= i < f.len() && 0 <= j < f.len() && i != j implies f[i] != f[j] by {
                if i < a.len() && j < a.len() {
                } else if i < a.len() {
                    assert(a.contains(f[i]));
                } else if j < a.len() {
                    assert(a.contains(f[j]));
                }
            }
        }
    }
}

/// Reordering a folder rearranges its entries and nothing else: the new order holds
/// each entry once, holds exactly the existing entries, and begins with the requested
/// entries that exist, each once, in the order requested. When the existing entries are
/// distinct, the new order is a permutation of them.
pub proof fn lemma_merge_order_permutes(requested: Seq<Seq<char>>, existing: Seq<Seq<char>>)
    ensures
        ({
            let m = merge_order_spec(requested, existing);
            let sel = select_requested(requested, existing);
            &&& m.no_duplicates()
            &&& forall|x: Seq<char>| #[trigger] m.contains(x) <==> existing.contains(x)
            &&& forall|x: Seq<char>| #[trigger] sel.contains(x) <==> requested.contains(x) && existing.contains(x)
            &&& sel.len() <= m.len()
            &&& m.take(sel.len() as int) == sel
            &&& existing.no_duplicates() ==> m.len() == existing.len()
        }),
{
    let sel = select_requested(requested, existing);
    let m = merge_order_spec(requested, existing);
    lemma_select_requested(requested, existing);
    lemma_fill_existing(sel, existing);
    assert forall|x: Seq<char>| #[trigger] m.contains(x) <==> existing.contains(x) by {
        if sel.contains(x) {
            assert(requested.contains(x) && existing.contains(x));
        }
    }
    if existing.no_duplicates() {
        assert(m.to_set() =~= existing.to_set()) by {
            assert forall|x: Seq<char>| m.to_set().contains(x) <==> existing.to_set().contains(x) by {
                assert(m.contains(x) <==> existing.contains(x));
            }
        }
        m.unique_seq_to_set();
        existing.unique_seq_to_set();
    }
}


/// `f` places the entries of `s` at entries of `t` equal to them, in increasing positions.
pub open spec fn ordered_embedding(s: Seq<Seq<char>>, t: Seq<Seq<char>>, f: spec_fn(int) -> int) -> bool {
    &&& forall|a: int| 0 <= a < s.len() ==> 0 <= #[trigger] f(a) < t.len() && t[f(a)] == s[a]
    &&& forall|a: int, b: int| 0 <= a < b < s.len() ==> #[trigger] f(a) < #[trigger] f(b)
}

/// `s` is `t` with some entries left out: its entries stand in `t` in the same order.
pub open spec fn is_subsequence(s: Seq<Seq<char>>, t: Seq<Seq<char>>) -> bool {
    exists|f: spec_fn(int) -> int| #[trigger] ordered_embedding(s, t, f)
}

proof fn lemma_select_in_order(requested: Seq<Seq<char>>, existing: Seq<Seq<char>>)
    ensures
        is_subsequence(select_requested(requested, existing), requested),
    decreases requested.len(),
{
    let sel = select_requested(requested, existing);
    if requested.len() == 0 {
        let f = |i: int| 0int;
        assert(ordered_embedding(sel, requested, f));
    } else {
        let rq = requested.drop_last();
        let last = requested.last();
        lemma_select_in_order(rq, existing);
        let acc = select_requested(rq, existing);
        let f = choose|f: spec_fn(int) -> int| #[trigger] ordered_embedding(acc, rq, f);
        if existing.contains(last) && !acc.contains(last) {
            let n = requested.len() - 1;
            let g = |i: int| if i < acc.len() { f(i) } else { n };
            assert(sel == acc.push(last));
            assert forall|a: int| 0 <= a < sel.len() implies 0 <= #[trigger] g(a) < requested.len() && requested[g(a)] == sel[a] by {
                if a < acc.len() {
                    assert(0 <= f(a) < rq.len() && rq[f(a)] == acc[a]);
                }
            }
            assert forall|a: int, b: int| 0 <= a < b < sel.len() implies #[trigger] g(a) < #[trigger] g(b) by {
                if b < acc.len() {
                    assert(f(a) < f(b));
                } else {
                    assert(0 <= f(a) < rq.len());
                }
            }
            assert(ordered_embedding(sel, requested, g));
        } else {
            assert forall|a: int| 0 <= a < sel.len() implies 0 <= #[trigger] f(a) < requested.len() && requested[f(a)] == sel[a] by {
                assert(0 <= f(a) < rq.len() && rq[f(a)] == acc[a]);
            }
            assert(ordered_embedding(sel, requested, f));
        }
    }
}

proof fn lemma_fill_in_order(acc: Seq<Seq<char>>, existing: Seq<Seq<char>>)
    requires
        acc.no_duplicates(),
    ensures
        is_subsequence(fill_existing(acc, existing).skip(acc.len() as int), existing),
    decreases existing.len(),
{
    lemma_fill_existing(acc, existing);
    let full = fill_existing(acc, existing).skip(acc.len() as int);
    if existing.len() == 0 {
        let f = |i: int| 0int;
        assert(full.len() == 0);
        assert(ordered_embedding(full, existing, f));
    } else {
        let ex = existing.drop_last();
        let last = existing.last();
        lemma_fill_in_order(acc, ex);
        lemma_fill_existing(acc, ex);
        let a = fill_existing(acc, ex);
        let sa = a.skip(acc.len() as int);
        let f = choose|f: spec_fn(int) -> int| #[trigger] ordered_embedding(sa, ex, f);
        if !a.contains(last) {
            let n = existing.len() - 1;
            let g = |i: int| if i < sa.len() { f(i) } else { n };
            assert(full =~= sa.push(last));
            assert forall|k: int| 0 <= k < full.len() implies 0 <= #[trigger] g(k) < existing.len() && existing[g(k)] == full[k] by {
                if k < sa.len() {
                    assert(0 <= f(k) < ex.len() && ex[f(k)] == sa[k]);
                }
            }
            assert forall|i: int, j: int| 0 <= i < j < full.len() implies #[trigger] g(i) < #[trigger] g(j) by {
                if j < sa.len() {
                    assert(f(i) < f(j));
                } else {
                    assert(0 <= f(i) < ex.len());
                }
            }
            assert(ordered_embedding(full, existing, g));
        } else {
            assert(full == sa);
            assert forall|k: int| 0 <= k < full.len() implies 0 <= #[trigger] f(k) < existing.len() && existing[f(k)] == full[k] by {
                assert(0 <= f(k) < ex.len() && ex[f(k)] == sa[k]);
            }
            assert(ordered_embedding(full, existing, f));
        }
    }
}

/// Reordering keeps both orders it is given: the requested entries come first in the
/// order they were requested, and the entries not requested follow in the order they
/// had among the existing entries.
pub proof fn lemma_merge_order_keeps_orders(requested: Seq<Seq<char>>, existing: Seq<Seq<char>>)
    ensures
        ({
            let m = merge_order_spec(requested, existing);
            let sel = select_requested(requested, existing);
            &&& sel.len() <= m.len()
            &&& is_subsequence(m.take(sel.len() as int), requested)
            &&& is_subsequence(m.skip(sel.len() as int), existing)
        }),
{
    let sel = select_requested(requested, existing);
    lemma_merge_order_permutes(requested, existing);
    lemma_select_requested(requested, existing);
    lemma_select_in_order(requested, existing);
    lemma_fill_in_order(sel, existing);
}

} // verus!
