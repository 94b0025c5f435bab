use vstd::prelude::*;
use crate::db::{clean_parts, folder_parts, join_spec, normalized_folder, path_sep};
use crate::text::{find_char, has_char, is_space, lemma_find_char_absent, lemma_find_char_bounds, split_seq, trim_end_seq, trim_seq, trim_start_seq};

verus! {

proof fn lemma_find_char_concat(x: Seq<char>, w: Seq<char>, c: char)
    ensures
        find_char(x + w, c) == if find_char(x, c) < x.len() {
            find_char(x, c)
        } else {
            x.len() + find_char(w, c)
        },
    decreases x.len(),
{
    lemma_find_char_bounds(x, c);
    if x.len() == 0 {
        assert(x + w =~= w);
    } else {
        assert((x + w)[0] == x[0]);
        assert((x + w).drop_first() =~= x.drop_first() + w);
        if x[0] != c {
            lemma_find_char_concat(x.drop_first(), w, c);
        }
    }
}

proof fn lemma_split_nonempty(s: Seq<char>, c: char)
    ensures
        split_seq(s, c).len() >= 1,
{
}

proof fn lemma_split_single(s: Seq<char>, c: char)
    requires
        find_char(s, c) == s.len(),
    ensures
        split_seq(s, c) == seq![s],
{
}

proof fn lemma_split_concat(x: Seq<char>, y: Seq<char>, c: char)
    ensures
        split_seq(x + (seq![c] + y), c) == split_seq(x, c) + split_seq(y, c),
    decreases x.len(),
{
    let s = x + (seq![c] + y);
    lemma_find_char_concat(x, seq![c] + y, c);
    lemma_find_char_bounds(x, c);
    assert((seq![c] + y)[0] == c);
    assert(find_char(seq![c] + y, c) == 0);
    let fx = find_char(x, c);
    if fx < x.len() {
        assert(s.take(fx) =~= x.take(fx));
        assert(s.skip(fx + 1) =~= x.skip(fx + 1) + (seq![c] + y));
        lemma_split_concat(x.skip(fx + 1), y, c);
        assert(split_seq(s, c) =~= split_seq(x, c) + split_seq(y, c));
    } else {
        assert(s.take(fx) =~= x);
        assert(s.skip(fx + 1) =~= y);
        lemma_split_single(x, c);
        assert(split_seq(s, c) =~= split_seq(x, c) + split_seq(y, c));
    }
}

proof fn lemma_split_append(x: Seq<char>, z: Seq<char>, c: char)
    requires
        find_char(z, c) == z.len(),
    ensures
        split_seq(x + z, c) == split_seq(x, c).drop_last().push(split_seq(x, c).last() + z),
    decreases x.len(),
{
    lemma_find_char_concat(x, z, c);
    lemma_find_char_bounds(x, c);
    let fx = find_char(x, c);
    if fx < x.len() {
        assert((x + z).take(fx) =~= x.take(fx));
        assert((x + z).skip(fx + 1) =~= x.skip(fx + 1) + z);
        lemma_split_append(x.skip(fx + 1), z, c);
        lemma_split_nonempty(x.skip(fx + 1), c);
        let rest = split_seq(x.skip(fx + 1), c);
        assert(split_seq(x, c) == seq![x.take(fx)] + rest);
        assert(split_seq(x + z, c) =~= split_seq(x, c).drop_last().push(split_seq(x, c).last() + z));
    } else {
        lemma_split_single(x, c);
        lemma_split_single(x + z, c);
        assert(split_seq(x + z, c) =~= split_seq(x, c).drop_last().push(split_seq(x, c).last() + z));
    }
}

proof fn lemma_split_pieces_lack_sep(s: Seq<char>, c: char)
    ensures
        forall|k: int| 0 <= k < split_seq(s, c).len() ==> find_char(#[trigger] split_seq(s, c)[k], c) == split_seq(s, c)[k].len(),
    decreases s.len(),
{
    lemma_find_char_bounds(s, c);
    let i = find_char(s, c);
    if i < s.len() {
        lemma_split_pieces_lack_sep(s.skip(i + 1), c);
        let rest = split_seq(s.skip(i + 1), c);
        assert forall|k: int| 0 <= k < split_seq(s, c).len() implies find_char(#[trigger] split_seq(s, c)[k], c) == split_seq(s, c)[k].len() by {
            if k == 0 {
                assert(split_seq(s, c)[0] == s.take(i));
                crate::text::lemma_find_char_is(s.take(i), c, i);
            } else {
                assert(split_seq(s, c)[k] == rest[k - 1]);
            }
        }
    }
}

proof fn lemma_trim_start_shape(s: Seq<char>)
    ensures
        trim_start_seq(s).len() <= s.len(),
        trim_start_seq(s) == s.skip(s.len() - trim_start_seq(s).len()),
        trim_start_seq(s).len() > 0 ==> !is_space(trim_start_seq(s)[0]),
    decreases s.len(),
{
    if s.len() > 0 && is_space(s[0]) {
        lemma_trim_start_shape(s.drop_first());
        assert(s.drop_first().skip(s.drop_first().len() - trim_start_seq(s).len()) =~= s.skip(s.len() - trim_start_seq(s).len()));
    } else {
        assert(s.skip(0) =~= s);
    }
}

proof fn lemma_trim_end_shape(s: Seq<char>)
    ensures
        trim_end_seq(s).len() <= s.len(),
        trim_end_seq(s) == s.take(trim_end_seq(s).len() as int),
        trim_end_seq(s).len() > 0 ==> !is_space(trim_end_seq(s).last()),
    decreases s.len(),
{
    if s.len() > 0 && is_space(s.last()) {
        lemma_trim_end_shape(s.drop_last());
        assert(s.drop_last().take(trim_end_seq(s).len() as int) =~= s.take(trim_end_seq(s).len() as int));
    } else {
        assert(s.take(s.len() as int) =~= s);
    }
}

/// Trimming keeps only characters of the text, and its result has no white space at
/// either end.
proof fn lemma_trim_shape(s: Seq<char>)
    ensures
        find_char(s, '/') == s.len() ==> find_char(trim_seq(s), '/') == trim_seq(s).len(),
        trim_seq(s).len() > 0 ==> !is_space(trim_seq(s)[0]) && !is_space(trim_seq(s).last()),
{
    let u = trim_start_seq(s);
    lemma_trim_start_shape(s);
    lemma_trim_end_shape(u);
    let t = trim_seq(s);
    if t.len() > 0 {
        assert(t[0] == u[0]);
    }
    if find_char(s, '/') == s.len() {
        lemma_find_char_absent(s, '/');
        lemma_find_char_absent(t, '/');
        if has_char(t, '/') {
            let j = choose|j: int| 0 <= j < t.len() && t[j] == '/';
            assert(t[j] == u[j]);
            assert(u[j] == s[s.len() - u.len() + j]);
        }
    }
}

proof fn lemma_trim_idempotent(s: Seq<char>)
    ensures
        trim_seq(trim_seq(s)) == trim_seq(s),
{
    let t = trim_seq(s);
    lemma_trim_shape(s);
    if t.len() > 0 {
        assert(trim_start_seq(t) == t);
        assert(trim_end_seq(t) == t);
    }
}

proof fn lemma_trim_space_front(x: Seq<char>)
    ensures
        trim_seq(seq![' '] + x) == trim_seq(x),
{
    let s = seq![' '] + x;
    assert(s[0] == ' ');
    assert(s.drop_first() =~= x);
}

proof fn lemma_trim_start_append(x: Seq<char>, z: Seq<char>)
    requires
        trim_start_seq(x).len() > 0,
    ensures
        trim_start_seq(x + z) == trim_start_seq(x) + z,
    decreases x.len(),
{
    assert((x + z)[0] == x[0]);
    if is_space(x[0]) {
        assert((x + z).drop_first() =~= x.drop_first() + z);
        lemma_trim_start_append(x.drop_first(), z);
    }
}

proof fn lemma_trim_start_blank_space(x: Seq<char>)
    requires
        trim_start_seq(x).len() == 0,
    ensures
        trim_start_seq(x + seq![' ']).len() == 0,
    decreases x.len(),
{
    let s = x + seq![' '];
    if x.len() == 0 {
        assert(s[0] == ' ');
        assert(is_space(s[0]));
        assert(s.drop_first() =~= Seq::<char>::empty());
        assert(trim_start_seq(Seq::<char>::empty()).len() == 0);
        assert(trim_start_seq(s) == trim_start_seq(s.drop_first()));
    } else {
        assert(is_space(x[0]));
        assert(s[0] == x[0]);
        assert(s.drop_first() =~= x.drop_first() + seq![' ']);
        lemma_trim_start_blank_space(x.drop_first());
        assert(trim_start_seq(s) == trim_start_seq(s.drop_first()));
    }
}

proof fn lemma_trim_space_back(x: Seq<char>)
    ensures
        trim_seq(x + seq![' ']) == trim_seq(x),
{
    let u = trim_start_seq(x);
    if u.len() > 0 {
        lemma_trim_start_append(x, seq![' ']);
        let v = u + seq![' '];
        assert(v.last() == ' ');
        assert(v.drop_last() =~= u);
    } else {
        lemma_trim_start_blank_space(x);
    }
}

proof fn lemma_clean_parts_concat(a: Seq<Seq<char>>, b: Seq<Seq<char>>)
    ensures
        clean_parts(a + b) == clean_parts(a) + clean_parts(b),
    decreases b.len(),
{
    if b.len() == 0 {
        assert(a + b =~= a);
        assert(clean_parts(a) + clean_parts(b) =~= clean_parts(a));
    } else {
        assert((a + b).drop_last() =~= a + b.drop_last());
        assert((a + b).last() == b.last());
        lemma_clean_parts_concat(a, b.drop_last());
        let t = trim_seq(b.last());
        if t.len() > 0 {
            assert(clean_parts(a) + clean_parts(b.drop_last()).push(t) =~= (clean_parts(a) + clean_parts(b.drop_last())).push(t));
        }
    }
}

proof fn lemma_clean_parts_of_trimmed(q: Seq<Seq<char>>, p: Seq<Seq<char>>)
    requires
        q.len() == p.len(),
        forall|i: int| 0 <= i < q.len() ==> trim_seq(#[trigger] q[i]) == p[i] && p[i].len() > 0,
    ensures
        clean_parts(q) == p,
    decreases q.len(),
{
    if q.len() > 0 {
        assert forall|i: int| 0 <= i < q.drop_last().len() implies trim_seq(#[trigger] q.drop_last()[i]) == p.drop_last()[i] && p.drop_last()[i].len() > 0 by {
            assert(q.drop_last()[i] == q[i]);
            assert(p.drop_last()[i] == p[i]);
        }
        lemma_clean_parts_of_trimmed(q.drop_last(), p.drop_last());
        assert(trim_seq(q.last()) == p.last());
        assert(p.drop_last().push(p.last()) =~= p);
    }
}

/// The levels that `clean_parts` keeps are trimmed and not empty, and hold no `/` when the
/// pieces held none.
proof fn lemma_clean_parts_shape(q: Seq<Seq<char>>)
    requires
        forall|k: int| 0 <= k < q.len() ==> find_char(#[trigger] q[k], '/') == q[k].len(),
    ensures
        forall|i: int| 0 <= i < clean_parts(q).len() ==> level_shaped(#[trigger] clean_parts(q)[i]),
    decreases q.len(),
{
    if q.len() > 0 {
        assert forall|k: int| 0 <= k < q.drop_last().len() implies find_char(#[trigger] q.drop_last()[k], '/') == q.drop_last()[k].len() by {
            assert(q.drop_last()[k] == q[k]);
        }
        lemma_clean_parts_shape(q.drop_last());
        let t = trim_seq(q.last());
        lemma_trim_shape(q.last());
        lemma_trim_idempotent(q.last());
        let rest = clean_parts(q.drop_last());
        if t.len() > 0 {
            assert forall|i: int| 0 <= i < clean_parts(q).len() implies level_shaped(#[trigger] clean_parts(q)[i]) by {
                if i < rest.len() {
                    assert(clean_parts(q)[i] == rest[i]);
                }
            }
        }
    }
}

/// A level of a canonical folder path: not empty, trimmed, and free of `/`.
pub open spec fn level_shaped(p: Seq<char>) -> bool {
    &&& p.len() > 0
    &&& trim_seq(p) == p
    &&& find_char(p, '/') == p.len()
}

proof fn lemma_split_joined(p: Seq<Seq<char>>)
    requires
        p.len() >= 1,
        forall|i: int| 0 <= i < p.len() ==> level_shaped(#[trigger] p[i]),
    ensures
        split_seq(join_spec(p, path_sep()), '/').len() == p.len(),
        forall|i: int| 0 <= i < p.len() ==> trim_seq(#[trigger] split_seq(join_spec(p, path_sep()), '/')[i]) == p[i],
    decreases p.len(),
{
    if p.len() == 1 {
        assert(level_shaped(p[0]));
        lemma_split_single(p[0], '/');
    } else {
        let pp = p.drop_last();
        let last = p.last();
        assert(level_shaped(p[p.len() - 1]));
        assert forall|i: int| 0 <= i < pp.len() implies level_shaped(#[trigger] pp[i]) by {
            assert(pp[i] == p[i]);
        }
        lemma_split_joined(pp);
        let jp = join_spec(pp, path_sep());
        let qp = split_seq(jp, '/');
        assert(join_spec(p, path_sep()) =~= (jp + seq![' ']) + (seq!['/'] + (seq![' '] + last)));
        lemma_split_concat(jp + seq![' '], seq![' '] + last, '/');
        assert(find_char(seq![' '], '/') == 1) by {
            let sp = seq![' '];
            assert(sp[0] == ' ');
            assert(sp.drop_first() =~= Seq::<char>::empty());
            assert(find_char(Seq::<char>::empty(), '/') == 0);
            assert(find_char(sp, '/') == 1 + find_char(sp.drop_first(), '/'));
        }
        lemma_split_append(jp, seq![' '], '/');
        lemma_find_char_concat(seq![' '], last, '/');
        lemma_split_single(seq![' '] + last, '/');
        let q = split_seq(join_spec(p, path_sep()), '/');
        assert(q =~= qp.drop_last().push(qp.last() + seq![' ']) + seq![seq![' '] + last]);
        assert forall|i: int| 0 <= i < p.len() implies trim_seq(#[trigger] q[i]) == p[i] by {
            if i == p.len() - 1 {
                lemma_trim_space_front(last);
            } else if i == p.len() - 2 {
                lemma_trim_space_back(qp.last());
                assert(trim_seq(qp[i]) == pp[i]);
            } else {
                assert(q[i] == qp[i]);
                assert(trim_seq(qp[i]) == pp[i]);
            }
        }
    }
}

/// The levels of a folder path are not empty, trimmed, and free of `/`.
pub proof fn lemma_folder_parts_shaped(folder: Seq<char>)
    ensures
        forall|i: int| 0 <= i < folder_parts(folder).len() ==> level_shaped(#[trigger] folder_parts(folder)[i]),
{
    lemma_split_pieces_lack_sep(folder, '/');
    lemma_clean_parts_shape(split_seq(folder, '/'));
}

/// Normalizing a folder path keeps its levels, so normalizing twice changes nothing: a
/// canonical path is its own canonical form.
pub proof fn lemma_normalize_folder_idempotent(folder: Seq<char>)
    ensures
        folder_parts(normalized_folder(folder)) == folder_parts(folder),
        normalized_folder(normalized_folder(folder)) == normalized_folder(folder),
{
    let p = folder_parts(folder);
    lemma_folder_parts_shaped(folder);
    if p.len() == 0 {
        let e = Seq::<char>::empty();
        assert(normalized_folder(folder) =~= e);
        assert(find_char(e, '/') == 0);
        lemma_split_single(e, '/');
        let q = split_seq(e, '/');
        assert(q.drop_last() =~= Seq::<Seq<char>>::empty());
        assert(trim_seq(e) =~= e);
        assert(q.last() == e);
        assert(clean_parts(Seq::<Seq<char>>::empty()) =~= Seq::<Seq<char>>::empty());
        assert(clean_parts(q) == clean_parts(q.drop_last()));
        assert(clean_parts(q) =~= Seq::<Seq<char>>::empty());
    } else {
        lemma_split_joined(p);
        let q = split_seq(normalized_folder(folder), '/');
        assert forall|i: int| 0 <= i < q.len() implies trim_seq(#[trigger] q[i]) == p[i] && p[i].len() > 0 by {
            assert(level_shaped(p[i]));
        }
        lemma_clean_parts_of_trimmed(q, p);
    }
}

} // verus!
