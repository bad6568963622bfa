//! Text helpers for the schema expander: lexicographic order on strings,
//! splitting at a separator, joining, and the sorted de-duplicated form of a
//! list of strings.
use vstd::prelude::*;
use vstd::string::*;

verus! {

/// The views of a sequence of strings.
pub open spec fn views(s: Seq<String>) -> Seq<Seq<char>> {
    s.map_values(|t: String| t@)
}

/// Lexicographic order on character sequences, comparing characters by
/// code point. On UTF-8 text this is the same order as comparing the bytes.
pub open spec fn seq_lt(a: Seq<char>, b: Seq<char>) -> bool
    decreases a.len(),
{
    if a.len() == 0 {
        b.len() > 0
    } else if b.len() == 0 {
        false
    } else if a[0] != b[0] {
        (a[0] as int) < (b[0] as int)
    } else {
        seq_lt(a.drop_first(), b.drop_first())
    }
}

/// Every element is strictly smaller than every later one.
pub open spec fn strictly_sorted(s: Seq<Seq<char>>) -> bool {
    forall|i: int, j: int| 0 <= i < j < s.len() ==> seq_lt(#[trigger] s[i], #[trigger] s[j])
}

/// No sequence is smaller than itself.
pub proof fn lemma_lt_irreflexive(a: Seq<char>)
    ensures
        !seq_lt(a, a),
    decreases a.len(),
{
    if a.len() > 0 {
        lemma_lt_irreflexive(a.drop_first());
    }
}

/// The order is transitive.
pub proof fn lemma_lt_transitive(a: Seq<char>, b: Seq<char>, c: Seq<char>)
    requires
        seq_lt(a, b),
        seq_lt(b, c),
    ensures
        seq_lt(a, c),
    decreases a.len(),
{
    if a.len() > 0 && b.len() > 0 && c.len() > 0 {
        if a[0] == b[0] && b[0] == c[0] {
            lemma_lt_transitive(a.drop_first(), b.drop_first(), c.drop_first());
        }
    }
}

/// Two different sequences are ordered one way or the other.
pub proof fn lemma_lt_total(a: Seq<char>, b: Seq<char>)
    requires
        a != b,
    ensures
        seq_lt(a, b) || seq_lt(b, a),
    decreases a.len(),
{
    if a.len() == 0 && b.len() == 0 {
        assert(a =~= b);
    } else if a.len() > 0 && b.len() > 0 && a[0] == b[0] {
        if a.drop_first() == b.drop_first() {
            assert(a =~= seq![a[0]] + a.drop_first());
            assert(b =~= seq![b[0]] + b.drop_first());
        }
        lemma_lt_total(a.drop_first(), b.drop_first());
    }
}

/// No sequence is both smaller and larger than another.
pub proof fn lemma_lt_asymmetric(a: Seq<char>, b: Seq<char>)
    requires
        seq_lt(a, b),
    ensures
        !seq_lt(b, a),
{
    if seq_lt(b, a) {
        lemma_lt_transitive(a, b, a);
        lemma_lt_irreflexive(a);
    }
}

/// Character-by-character equality of two string slices.
pub fn str_eq(a: &str, b: &str) -> (r: bool)
    ensures
        r == (a@ == b@),
{
    let n = a.unicode_len();
    let m = b.unicode_len();
    if n != m {
        return false;
    }
    let mut i: usize = 0;
    while i < n
        invariant
            n == a@.len(),
            m == b@.len(),
            n == m,
            i <= n,
            forall|k: int| 0 <= k < i ==> a@[k] == b@[k],
        decreases n - i,
    {
        if a.get_char(i) != b.get_char(i) {
            return false;
        }
        i = i + 1;
    }
    assert(a@ =~= b@);
    true
}

/// Whether `a` comes strictly before `b` in lexicographic order.
pub fn text_lt(a: &str, b: &str) -> (r: bool)
    ensures
        r == seq_lt(a@, b@),
{
    let n = a.unicode_len();
    let m = b.unicode_len();
    let mut i: usize = 0;
    assert(a@.skip(0) =~= a@);
    assert(b@.skip(0) =~= b@);
    while i < n && i < m
        invariant
            n == a@.len(),
            m == b@.len(),
            i <= n,
            i <= m,
            seq_lt(a@, b@) == seq_lt(a@.skip(i as int), b@.skip(i as int)),
        decreases n - i,
    {
        let x = a.get_char(i);
        let y = b.get_char(i);
        assert(a@.skip(i as int)[0] == x);
        assert(b@.skip(i as int)[0] == y);
        if x != y {
            return (x as u32) < (y as u32);
        }
        assert(a@.skip(i as int).drop_first() =~= a@.skip(i + 1));
        assert(b@.skip(i as int).drop_first() =~= b@.skip(i + 1));
        i = i + 1;
    }
    i < m
}

/// The pieces of `s` between occurrences of `sep`, as `str::split` with a
/// character pattern yields them: an empty text gives one empty piece, and
/// `n` separators give `n + 1` pieces.
pub open spec fn split_spec(s: Seq<char>, sep: char) -> Seq<Seq<char>>
    decreases s.len(),
{
    if s.len() == 0 {
        seq![Seq::<char>::empty()]
    } else {
        let p = split_spec(s.drop_last(), sep);
        if s.last() == sep {
            p.push(Seq::<char>::empty())
        } else {
            p.update(p.len() - 1, p.last().push(s.last()))
        }
    }
}

/// The pieces joined with `sep` between consecutive pieces.
pub open spec fn join_spec(parts: Seq<Seq<char>>, sep: Seq<char>) -> Seq<char>
    decreases parts.len(),
{
    if parts.len() == 0 {
        Seq::<char>::empty()
    } else if parts.len() == 1 {
        parts[0]
    } else {
        join_spec(parts.drop_last(), sep) + sep + parts.last()
    }
}

/// `split_spec` never gives an empty list.
pub proof fn lemma_split_nonempty(s: Seq<char>, sep: char)
    ensures
        split_spec(s, sep).len() >= 1,
    decreases s.len(),
{
    if s.len() > 0 {
        lemma_split_nonempty(s.drop_last(), sep);
    }
}

/// Law: joining the pieces of a split with the separator gives back the text.
pub proof fn law_join_split(s: Seq<char>, sep: char)
    ensures
        join_spec(split_spec(s, sep), seq![sep]) == s,
    decreases s.len(),
{
    if s.len() > 0 {
        let t = s.drop_last();
        law_join_split(t, sep);
        lemma_split_nonempty(t, sep);
        let p = split_spec(t, sep);
        if s.last() == sep {
            let q = p.push(Seq::<char>::empty());
            assert(q.drop_last() =~= p);
            assert(join_spec(q, seq![sep]) == join_spec(p, seq![sep]) + seq![sep] + Seq::<char>::empty());
            assert(s =~= t + seq![sep] + Seq::<char>::empty());
        } else {
            let q = p.update(p.len() - 1, p.last().push(s.last()));
            if p.len() == 1 {
                assert(join_spec(p, seq![sep]) == p[0]);
                assert(s =~= p[0].push(s.last()));
            } else {
                assert(s =~= t.push(s.last()));
                assert(q.drop_last() =~= p.drop_last());
                assert(q.last() == p.last().push(s.last()));
                assert(join_spec(p, seq![sep]) == join_spec(p.drop_last(), seq![sep]) + seq![sep]
                    + p.last());
                assert(join_spec(q, seq![sep]) == join_spec(p.drop_last(), seq![sep]) + seq![sep]
                    + p.last().push(s.last()));
                assert(s =~= join_spec(p.drop_last(), seq![sep]) + seq![sep] + p.last().push(
                    s.last(),
                ));
            }
        }
    } else {
        assert(join_spec(split_spec(s, sep), seq![sep]) == Seq::<char>::empty());
        assert(s =~= Seq::<char>::empty());
    }
}

/// Splits `s` at every `sep`, as `str::split` does.
pub fn split_at_char(s: &str, sep: char) -> (r: Vec<String>)
    ensures
        views(r@) == split_spec(s@, sep),
{
    let n = s.unicode_len();
    let mut pieces: Vec<String> = Vec::new();
    let mut start: usize = 0;
    let mut i: usize = 0;
    assert(s@.subrange(0, 0) =~= Seq::<char>::empty());
    assert(views(pieces@).push(s@.subrange(0, 0)) =~= split_spec(s@.subrange(0, 0), sep));
    while i < n
        invariant
            n == s@.len(),
            start <= i <= n,
            views(pieces@).push(s@.subrange(start as int, i as int)) == split_spec(
                s@.subrange(0, i as int),
                sep,
            ),
        decreases n - i,
    {
        let c = s.get_char(i);
        let ghost pre = s@.subrange(0, i as int);
        let ghost cur = s@.subrange(0, i + 1);
        assert(cur.drop_last() =~= pre);
        assert(cur.last() == c);
        if c == sep {
            let piece = s.substring_char(start, i).to_owned();
            let ghost before = pieces@;
            pieces.push(piece);
            assert(views(pieces@) =~= views(before).push(s@.subrange(start as int, i as int)));
            start = i + 1;
            assert(s@.subrange(start as int, i + 1) =~= Seq::<char>::empty());
            assert(views(pieces@).push(s@.subrange(start as int, i + 1)) =~= split_spec(cur, sep));
        } else {
            let ghost p = split_spec(pre, sep);
            assert(s@.subrange(start as int, i + 1) =~= s@.subrange(start as int, i as int).push(c));
            assert(views(pieces@).push(s@.subrange(start as int, i + 1)) =~= p.update(
                p.len() - 1,
                p.last().push(c),
            ));
        }
        i = i + 1;
    }
    let last = s.substring_char(start, n).to_owned();
    let ghost before = pieces@;
    pieces.push(last);
    assert(s@.subrange(0, n as int) =~= s@);
    assert(views(pieces@) =~= views(before).push(s@.subrange(start as int, n as int)));
    pieces
}

/// Joins `parts`, putting `sep` between consecutive ones.
pub fn join_with(parts: &Vec<String>, sep: &str) -> (r: String)
    ensures
        r@ == join_spec(views(parts@), sep@),
{
    let mut out = String::new();
    let mut i: usize = 0;
    while i < parts.len()
        invariant
            i <= parts.len(),
            out@ == join_spec(views(parts@).take(i as int), sep@),
        decreases parts.len() - i,
    {
        let ghost before = views(parts@).take(i as int);
        let ghost after = views(parts@).take(i + 1);
        assert(after.drop_last() =~= before);
        assert(after.last() == parts@[i as int]@);
        if i > 0 {
            out.append(sep);
        } else {
            assert(out@ =~= Seq::<char>::empty());
        }
        out.append(parts[i].as_str());
        proof {
            if i == 0 {
                assert(out@ =~= after[0]);
            }
        }
        i = i + 1;
    }
    assert(views(parts@).take(parts.len() as int) =~= views(parts@));
    out
}

/// A copy of the string.
pub fn copy_string(s: &String) -> (r: String)
    ensures
        r@ == s@,
{
    s.clone()
}

/// Whether two strictly sorted lists hold the same elements; they are then equal.
pub proof fn lemma_sorted_unique(a: Seq<Seq<char>>, b: Seq<Seq<char>>)
    requires
        strictly_sorted(a),
        strictly_sorted(b),
        a.to_set() == b.to_set(),
    ensures
        a == b,
    decreases a.len(),
{
    if a.len() == 0 {
        if b.len() > 0 {
            assert(b.to_set().contains(b[0]));
            assert(!a.to_set().contains(b[0]));
        }
        assert(a =~= b);
    } else if b.len() == 0 {
        assert(a.to_set().contains(a[0]));
    } else {
        // The first elements are both the least element of the common set.
        assert(a.to_set().contains(a[0]));
        assert(b.to_set().contains(b[0]));
        assert(b.contains(a[0]));
        assert(a.contains(b[0]));
        let i = choose|i: int| 0 <= i < b.len() && b[i] == a[0];
        let j = choose|j: int| 0 <= j < a.len() && a[j] == b[0];
        if a[0] != b[0] {
            assert(i > 0 && j > 0);
            assert(seq_lt(b[0], b[i]));
            assert(seq_lt(a[0], a[j]));
            lemma_lt_asymmetric(a[0], b[0]);
        }
        let ta = a.drop_first();
        let tb = b.drop_first();
        assert(strictly_sorted(ta));
        assert(strictly_sorted(tb));
        assert forall|x: Seq<char>| ta.to_set().contains(x) implies tb.to_set().contains(x) by {
            let k = choose|k: int| 0 <= k < ta.len() && ta[k] == x;
            assert(a[k + 1] == x);
            assert(a.to_set().contains(x));
            assert(b.contains(x));
            let l = choose|l: int| 0 <= l < b.len() && b[l] == x;
            if l == 0 {
                assert(seq_lt(a[0], a[k + 1]));
                lemma_lt_irreflexive(x);
            }
            assert(tb[l - 1] == x);
        }
        assert forall|x: Seq<char>| tb.to_set().contains(x) implies ta.to_set().contains(x) by {
            let k = choose|k: int| 0 <= k < tb.len() && tb[k] == x;
            assert(b[k + 1] == x);
            assert(b.to_set().contains(x));
            assert(a.contains(x));
            let l = choose|l: int| 0 <= l < a.len() && a[l] == x;
            if l == 0 {
                assert(seq_lt(b[0], b[k + 1]));
                lemma_lt_irreflexive(x);
            }
            assert(ta[l - 1] == x);
        }
        assert(ta.to_set() =~= tb.to_set());
        lemma_sorted_unique(ta, tb);
        assert(a =~= seq![a[0]] + ta);
        assert(b =~= seq![b[0]] + tb);
    }
}

/// Sorts the strings in lexicographic order and drops repeated ones, as
/// `sort_unstable` followed by `dedup` does.
pub fn sort_dedup(items: &Vec<String>) -> (r: Vec<String>)
    ensures
        strictly_sorted(views(r@)),
        views(r@).to_set() == views(items@).to_set(),
{
    let mut out: Vec<String> = Vec::new();
    let mut i: usize = 0;
    while i < items.len()
        invariant
            i <= items.len(),
            strictly_sorted(views(out@)),
            views(out@).to_set() == views(items@).take(i as int).to_set(),
        decreases items.len() - i,
    {
        let x = &items[i];
        let ghost xv = x@;
        // The first position whose element is not smaller than `x`.
        let mut j: usize = 0;
        while j < out.len() && text_lt(out[j].as_str(), x.as_str())
            invariant
                j <= out.len(),
                xv == x@,
                forall|k: int| 0 <= k < j ==> seq_lt(#[trigger] views(out@)[k], xv),
            decreases out.len() - j,
        {
            assert(views(out@)[j as int] == out@[j as int]@);
            j = j + 1;
        }
        let ghost old_out = views(out@);
        let ghost pre = views(items@).take(i as int);
        let ghost post = views(items@).take(i + 1);
        let present = j < out.len() && out[j] == *x;
        if !present {
            let y = copy_string(x);
            out.insert(j, y);
            proof {
                let nv = views(out@);
                assert(nv =~= old_out.insert(j as int, xv));
                if j < old_out.len() {
                    assert(!seq_lt(old_out[j as int], xv));
                    assert(old_out[j as int] != xv);
                    lemma_lt_total(old_out[j as int], xv);
                }
                assert forall|a: int, b: int| 0 <= a < b < nv.len() implies seq_lt(
                    #[trigger] nv[a],
                    #[trigger] nv[b],
                ) by {
                    if a < j && b == j {
                    } else if a < j && b < j {
                        assert(seq_lt(old_out[a], old_out[b]));
                    } else if a < j && b > j {
                        assert(seq_lt(old_out[a], old_out[b - 1]));
                    } else if a == j {
                        if b - 1 == j {
                        } else {
                            assert(seq_lt(old_out[j as int], old_out[b - 1]));
                            lemma_lt_transitive(xv, old_out[j as int], old_out[b - 1]);
                        }
                    } else {
                        assert(seq_lt(old_out[a - 1], old_out[b - 1]));
                    }
                }
                assert(post =~= pre.push(xv));
                assert(nv.to_set() =~= post.to_set()) by {
                    assert forall|z: Seq<char>| nv.to_set().contains(z) implies views(items@).take(
                        i + 1,
                    ).to_set().contains(z) by {
                        let k = choose|k: int| 0 <= k < nv.len() && nv[k] == z;
                        if k < j {
                            assert(old_out[k] == z);
                            assert(old_out.to_set().contains(z));
                            assert(pre.contains(z));
                            let l = choose|l: int|
                                0 <= l < i && pre[l] == z;
                            assert(post[l] == z);
                        } else if k > j {
                            assert(old_out[k - 1] == z);
                            assert(old_out.to_set().contains(z));
                            assert(pre.contains(z));
                            let l = choose|l: int|
                                0 <= l < i && pre[l] == z;
                            assert(post[l] == z);
                        } else {
                            assert(post[i as int] == z);
                        }
                    }
                    assert forall|z: Seq<char>| post.to_set().contains(
                        z,
                    ) implies nv.to_set().contains(z) by {
                        let l = choose|l: int|
                            0 <= l < i + 1 && post[l] == z;
                        if l < i {
                            assert(pre[l] == z);
                            assert(old_out.to_set().contains(z));
                            let k = choose|k: int| 0 <= k < old_out.len() && old_out[k] == z;
                            if k < j {
                                assert(nv[k] == z);
                            } else {
                                assert(nv[k + 1] == z);
                            }
                        } else {
                            assert(nv[j as int] == z);
                        }
                    }
                }
            }
        } else {
            proof {
                assert(old_out[j as int] == xv);
                assert(post =~= pre.push(xv));
                assert(old_out.to_set() =~= post.to_set()) by {
                    assert forall|z: Seq<char>| post.to_set().contains(
                        z,
                    ) implies old_out.to_set().contains(z) by {
                        let l = choose|l: int|
                            0 <= l < i + 1 && post[l] == z;
                        if l < i {
                            assert(pre[l] == z);
                        } else {
                            assert(old_out[j as int] == z);
                        }
                    }
                    assert forall|z: Seq<char>| old_out.to_set().contains(z) implies post.to_set().contains(z) by {
                        assert(pre.to_set().contains(z));
                        let l = choose|l: int|
                            0 <= l < i && pre[l] == z;
                        assert(post[l] == z);
                    }
                }
            }
        }
        i = i + 1;
    }
    assert(views(items@).take(items.len() as int) =~= views(items@));
    out
}

/// `x` placed into the strictly sorted list `r`, unless it is there already.
pub open spec fn insert_sorted(r: Seq<Seq<char>>, x: Seq<char>) -> Seq<Seq<char>>
    decreases r.len(),
{
    if r.len() == 0 {
        seq![x]
    } else if r[0] == x {
        r
    } else if seq_lt(x, r[0]) {
        seq![x] + r
    } else {
        seq![r[0]] + insert_sorted(r.drop_first(), x)
    }
}

/// The strictly sorted list of the distinct elements of `s`, built by insertion.
pub open spec fn sort_spec(s: Seq<Seq<char>>) -> Seq<Seq<char>>
    decreases s.len(),
{
    if s.len() == 0 {
        Seq::empty()
    } else {
        insert_sorted(sort_spec(s.drop_last()), s.last())
    }
}

proof fn lemma_insert_sorted(r: Seq<Seq<char>>, x: Seq<char>)
    requires
        strictly_sorted(r),
    ensures
        strictly_sorted(insert_sorted(r, x)),
        insert_sorted(r, x).to_set() == r.to_set().insert(x),
    decreases r.len(),
{
    let q = insert_sorted(r, x);
    if r.len() == 0 {
        assert(q.to_set() =~= r.to_set().insert(x)) by {
            assert(q[0] == x);
        }
    } else if r[0] == x {
        assert(q.to_set() =~= r.to_set().insert(x)) by {
            assert(r.contains(x));
        }
    } else if seq_lt(x, r[0]) {
        assert forall|i: int, j: int| 0 <= i < j < q.len() implies seq_lt(#[trigger] q[i], #[trigger] q[j]) by {
            if i == 0 {
                if j > 1 {
                    assert(seq_lt(r[0], r[j - 1]));
                    lemma_lt_transitive(x, r[0], r[j - 1]);
                }
            } else {
                assert(seq_lt(r[i - 1], r[j - 1]));
            }
        }
        assert(q.to_set() =~= r.to_set().insert(x)) by {
            assert forall|z: Seq<char>| q.to_set().contains(z) implies r.to_set().insert(x).contains(z) by {
                let k = choose|k: int| 0 <= k < q.len() && q[k] == z;
                if k > 0 {
                    assert(r[k - 1] == z);
                }
            }
            assert forall|z: Seq<char>| r.to_set().insert(x).contains(z) implies q.to_set().contains(z) by {
                if z != x {
                    let k = choose|k: int| 0 <= k < r.len() && r[k] == z;
                    assert(q[k + 1] == z);
                } else {
                    assert(q[0] == z);
                }
            }
        }
    } else {
        let t = r.drop_first();
        assert(strictly_sorted(t)) by {
            assert forall|i: int, j: int| 0 <= i < j < t.len() implies seq_lt(#[trigger] t[i], #[trigger] t[j]) by {
                assert(seq_lt(r[i + 1], r[j + 1]));
            }
        }
        lemma_insert_sorted(t, x);
        let u = insert_sorted(t, x);
        lemma_lt_total(x, r[0]);
        assert forall|i: int| 0 <= i < u.len() implies seq_lt(r[0], #[trigger] u[i]) by {
            assert(u.to_set().contains(u[i]));
            if u[i] != x {
                assert(t.to_set().contains(u[i]));
                let k = choose|k: int| 0 <= k < t.len() && t[k] == u[i];
                assert(seq_lt(r[0], r[k + 1]));
            }
        }
        assert forall|i: int, j: int| 0 <= i < j < q.len() implies seq_lt(#[trigger] q[i], #[trigger] q[j]) by {
            if i == 0 {
                assert(q[j] == u[j - 1]);
            } else {
                assert(q[i] == u[i - 1]);
                assert(q[j] == u[j - 1]);
            }
        }
        assert(q.to_set() =~= r.to_set().insert(x)) by {
            assert forall|z: Seq<char>| q.to_set().contains(z) implies r.to_set().insert(x).contains(z) by {
                let k = choose|k: int| 0 <= k < q.len() && q[k] == z;
                if k > 0 {
                    assert(u[k - 1] == z);
                    assert(u.to_set().contains(z));
                    if z != x {
                        assert(t.to_set().contains(z));
                        let l = choose|l: int| 0 <= l < t.len() && t[l] == z;
                        assert(r[l + 1] == z);
                    }
                }
            }
            assert forall|z: Seq<char>| r.to_set().insert(x).contains(z) implies q.to_set().contains(z) by {
                if z == r[0] {
                    assert(q[0] == z);
                } else {
                    if z != x {
                        let k = choose|k: int| 0 <= k < r.len() && r[k] == z;
                        assert(k > 0);
                        assert(t[k - 1] == z);
                        assert(t.to_set().contains(z));
                    }
                    assert(u.to_set().contains(z));
                    let l = choose|l: int| 0 <= l < u.len() && u[l] == z;
                    assert(q[l + 1] == z);
                }
            }
        }
    }
}

/// Every list of texts has a strictly sorted list with the same elements.
pub proof fn lemma_sort_spec(s: Seq<Seq<char>>)
    ensures
        strictly_sorted(sort_spec(s)),
        sort_spec(s).to_set() == s.to_set(),
    decreases s.len(),
{
    if s.len() == 0 {
        assert(s.to_set() =~= Set::<Seq<char>>::empty());
        assert(sort_spec(s).to_set() =~= Set::<Seq<char>>::empty());
    } else {
        let t = s.drop_last();
        lemma_sort_spec(t);
        lemma_insert_sorted(sort_spec(t), s.last());
        assert(s.to_set() =~= t.to_set().insert(s.last())) by {
            assert forall|z: Seq<char>| s.to_set().contains(z) implies t.to_set().insert(s.last()).contains(z) by {
                let k = choose|k: int| 0 <= k < s.len() && s[k] == z;
                if k < s.len() - 1 {
                    assert(t[k] == z);
                }
            }
            assert forall|z: Seq<char>| t.to_set().insert(s.last()).contains(z) implies s.to_set().contains(z) by {
                if z != s.last() {
                    let k = choose|k: int| 0 <= k < t.len() && t[k] == z;
                    assert(s[k] == z);
                } else {
                    assert(s[s.len() - 1] == z);
                }
            }
        }
    }
}

/// The text of one decimal digit.
pub open spec fn digit_text(d: nat) -> Seq<char> {
    if d == 0 {
        "0"@
    } else if d == 1 {
        "1"@
    } else if d == 2 {
        "2"@
    } else if d == 3 {
        "3"@
    } else if d == 4 {
        "4"@
    } else if d == 5 {
        "5"@
    } else if d == 6 {
        "6"@
    } else if d == 7 {
        "7"@
    } else if d == 8 {
        "8"@
    } else {
        "9"@
    }
}

/// The decimal digits of `n`, without leading zeros.
pub open spec fn decimal(n: nat) -> Seq<char>
    decreases n,
{
    if n < 10 {
        digit_text(n)
    } else {
        decimal(n / 10) + digit_text(n % 10)
    }
}

/// The decimal text of `n`, with a leading `-` when it is negative.
pub open spec fn signed_decimal(n: int) -> Seq<char> {
    if n < 0 {
        "-"@ + decimal((-n) as nat)
    } else {
        decimal(n as nat)
    }
}

fn digit_str(d: u64) -> (r: &'static str)
    requires
        d < 10,
    ensures
        r@ == digit_text(d as nat),
{
    if d == 0 {
        "0"
    } else if d == 1 {
        "1"
    } else if d == 2 {
        "2"
    } else if d == 3 {
        "3"
    } else if d == 4 {
        "4"
    } else if d == 5 {
        "5"
    } else if d == 6 {
        "6"
    } else if d == 7 {
        "7"
    } else if d == 8 {
        "8"
    } else {
        "9"
    }
}

/// The decimal text of `n`.
pub fn decimal_string(n: u64) -> (r: String)
    ensures
        r@ == decimal(n as nat),
    decreases n,
{
    if n < 10 {
        String::from_str(digit_str(n))
    } else {
        let mut s = decimal_string(n / 10);
        s.append(digit_str(n % 10));
        s
    }
}

/// The decimal text of `n`, with a leading `-` when it is negative.
pub fn signed_decimal_string(n: i64) -> (r: String)
    ensures
        r@ == signed_decimal(n as int),
{
    if n < 0 {
        let m: u64 = if n == i64::MIN {
            0x8000_0000_0000_0000u64
        } else {
            (-n) as u64
        };
        let mut s = String::from_str("-");
        let d = decimal_string(m);
        s.append(d.as_str());
        s
    } else {
        decimal_string(n as u64)
    }
}

} // verus!
