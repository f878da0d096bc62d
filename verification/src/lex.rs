//! Lexicographic ordering of tag texts, and the small toolkit the store needs
//! to deduplicate and sort them: membership, distinctness, sortedness, and a
//! canonical-form lemma (a sorted, duplicate-free list is determined by the
//! set of its members).

use vstd::prelude::*;

verus! {

/// Lexicographic "less than or equal" on character sequences, ordered by
/// code point.
pub open spec fn lex_le(a: Seq<char>, b: Seq<char>) -> bool
    decreases a.len(),
{
    if a.len() == 0 {
        true
    } else if b.len() == 0 {
        false
    } else if a[0] != b[0] {
        a[0] < b[0]
    } else {
        lex_le(a.skip(1), b.skip(1))
    }
}

pub proof fn lemma_lex_le_refl(a: Seq<char>)
    ensures
        lex_le(a, a),
    decreases a.len(),
{
    if a.len() > 0 {
        lemma_lex_le_refl(a.skip(1));
    }
}

pub proof fn lemma_lex_le_total(a: Seq<char>, b: Seq<char>)
    ensures
        lex_le(a, b) || lex_le(b, a),
    decreases a.len(),
{
    if a.len() > 0 && b.len() > 0 && a[0] == b[0] {
        lemma_lex_le_total(a.skip(1), b.skip(1));
    }
}

pub proof fn lemma_lex_le_antisymmetric(a: Seq<char>, b: Seq<char>)
    requires
        lex_le(a, b),
        lex_le(b, a),
    ensures
        a == b,
    decreases a.len(),
{
    if a.len() == 0 {
        assert(b.len() == 0);
        assert(a =~= b);
    } else {
        assert(a[0] == b[0]);
        lemma_lex_le_antisymmetric(a.skip(1), b.skip(1));
        assert(a.len() == a.skip(1).len() + 1);
        assert forall|i: int| 0 <= i < a.len() implies a[i] == b[i] by {
            if i >= 1 {
                assert(a.skip(1)[i - 1] == a[i]);
                assert(b.skip(1)[i - 1] == b[i]);
            }
        }
        assert(a =~= b);
    }
}

pub proof fn lemma_lex_le_transitive(a: Seq<char>, b: Seq<char>, c: Seq<char>)
    requires
        lex_le(a, b),
        lex_le(b, c),
    ensures
        lex_le(a, c),
    decreases a.len(),
{
    if a.len() > 0 && b.len() > 0 && c.len() > 0 && a[0] == b[0] && b[0] == c[0] {
        lemma_lex_le_transitive(a.skip(1), b.skip(1), c.skip(1));
    }
}

/// Stepping lemma for the character-by-character comparison loop: once the
/// first `i` characters agree, the comparison is decided by the suffixes.
proof fn lemma_lex_le_common_prefix(a: Seq<char>, b: Seq<char>, i: int)
    requires
        0 <= i <= a.len(),
        i <= b.len(),
        forall|k: int| 0 <= k < i ==> a[k] == b[k],
    ensures
        lex_le(a, b) == lex_le(a.skip(i), b.skip(i)),
    decreases i,
{
    if i == 0 {
        assert(a.skip(0) =~= a);
        assert(b.skip(0) =~= b);
    } else {
        assert(a.len() > 0 && b.len() > 0 && a[0] == b[0]);
        assert forall|k: int| 0 <= k < i - 1 implies a.skip(1)[k] == b.skip(1)[k] by {
            assert(a.skip(1)[k] == a[k + 1]);
            assert(b.skip(1)[k] == b[k + 1]);
        }
        lemma_lex_le_common_prefix(a.skip(1), b.skip(1), i - 1);
        assert(a.skip(1).skip(i - 1) =~= a.skip(i));
        assert(b.skip(1).skip(i - 1) =~= b.skip(i));
    }
}

/// Decides `lex_le` on two string slices.
pub fn str_le(a: &str, b: &str) -> (r: bool)
    ensures
        r == lex_le(a@, b@),
{
    let a_len = a.unicode_len();
    let b_len = b.unicode_len();
    let mut i: usize = 0;
    loop
        invariant
            0 <= i <= a_len,
            i <= b_len,
            a_len == a@.len(),
            b_len == b@.len(),
            forall|k: int| 0 <= k < i ==> a@[k] == b@[k],
        decreases a_len - i,
    {
        proof {
            lemma_lex_le_common_prefix(a@, b@, i as int);
        }
        if i == a_len {
            return true;
        }
        if i == b_len {
            return false;
        }
        let ca = a.get_char(i);
        let cb = b.get_char(i);
        if ca != cb {
            assert(a@.skip(i as int)[0] == ca && b@.skip(i as int)[0] == cb);
            return ca < cb;
        }
        i = i + 1;
    }
}

/// Decides whether two string slices hold the same characters.
pub fn str_eq(a: &str, b: &str) -> (r: bool)
    ensures
        r == (a@ == b@),
{
    let le = str_le(a, b);
    let ge = str_le(b, a);
    proof {
        if le && ge {
            lemma_lex_le_antisymmetric(a@, b@);
        }
        if a@ == b@ {
            lemma_lex_le_refl(a@);
        }
    }
    le && ge
}

/// The character sequences of a list of strings.
pub open spec fn views_of(ss: Seq<String>) -> Seq<Seq<char>> {
    ss.map_values(|s: String| s@)
}

/// Membership of a text in a list of texts.
pub open spec fn contains_text(ts: Seq<Seq<char>>, t: Seq<char>) -> bool {
    exists|i: int| 0 <= i < ts.len() && ts[i] == t
}

/// No text occurs twice.
pub open spec fn distinct_texts(ts: Seq<Seq<char>>) -> bool {
    forall|i: int, j: int| 0 <= i < j < ts.len() ==> ts[i] != ts[j]
}

/// Lexicographically sorted, ascending.
pub open spec fn sorted_texts(ts: Seq<Seq<char>>) -> bool {
    forall|i: int, j: int| 0 <= i < j < ts.len() ==> lex_le(ts[i], ts[j])
}

/// The two lists hold the same set of texts.
pub open spec fn same_texts(a: Seq<Seq<char>>, b: Seq<Seq<char>>) -> bool {
    forall|t: Seq<char>| contains_text(a, t) == contains_text(b, t)
}

pub proof fn lemma_views_push(ss: Seq<String>, s: String)
    ensures
        views_of(ss.push(s)) =~= views_of(ss).push(s@),
{
}

pub proof fn lemma_views_insert(ss: Seq<String>, p: int, s: String)
    requires
        0 <= p <= ss.len(),
    ensures
        views_of(ss.insert(p, s)) =~= views_of(ss).insert(p, s@),
{
    ss.insert_ensures(p, s);
    views_of(ss).insert_ensures(p, s@);
    assert forall|i: int| 0 <= i < ss.len() + 1 implies views_of(ss.insert(p, s))[i] == views_of(
        ss,
    ).insert(p, s@)[i] by {
        if i < p {
        } else if i == p {
        } else {
            assert(ss.insert(p, s)[(i - 1) + 1] == ss[i - 1]);
            assert(views_of(ss).insert(p, s@)[(i - 1) + 1] == views_of(ss)[i - 1]);
        }
    }
}

/// Membership in a list with one text appended.
pub proof fn lemma_contains_push(ts: Seq<Seq<char>>, x: Seq<char>, t: Seq<char>)
    ensures
        contains_text(ts.push(x), t) == (contains_text(ts, t) || t == x),
{
    if contains_text(ts.push(x), t) {
        let w = choose|k: int| 0 <= k < ts.push(x).len() && ts.push(x)[k] == t;
        if w < ts.len() {
            assert(ts[w] == t);
        }
    }
    if contains_text(ts, t) {
        let w = choose|k: int| 0 <= k < ts.len() && ts[k] == t;
        assert(ts.push(x)[w] == t);
    }
    if t == x {
        assert(ts.push(x)[ts.len() as int] == t);
    }
}

/// Membership in a list with one text inserted.
pub proof fn lemma_contains_insert(ts: Seq<Seq<char>>, p: int, x: Seq<char>, t: Seq<char>)
    requires
        0 <= p <= ts.len(),
    ensures
        contains_text(ts.insert(p, x), t) == (contains_text(ts, t) || t == x),
{
    ts.insert_ensures(p, x);
    let e = ts.insert(p, x);
    if contains_text(e, t) {
        let w = choose|k: int| 0 <= k < e.len() && e[k] == t;
        if w < p {
            assert(ts[w] == t);
        } else if w > p {
            assert(e[(w - 1) + 1] == ts[w - 1]);
            assert(ts[w - 1] == t);
        }
    }
    if contains_text(ts, t) {
        let w = choose|k: int| 0 <= k < ts.len() && ts[k] == t;
        if w < p {
            assert(e[w] == t);
        } else {
            assert(e[w + 1] == ts[w]);
        }
    }
    if t == x {
        assert(e[p] == t);
    }
}

/// Whether the string list `v` holds a string with the characters of `s`.
pub fn texts_contain(v: &Vec<String>, s: &str) -> (r: bool)
    ensures
        r == contains_text(views_of(v@), s@),
{
    let n = v.len();
    let mut i: usize = 0;
    while i < n
        invariant
            0 <= i <= n,
            n == v@.len(),
            forall|k: int| 0 <= k < i ==> views_of(v@)[k] != s@,
        decreases n - i,
    {
        if str_eq(v[i].as_str(), s) {
            assert(views_of(v@)[i as int] == s@);
            return true;
        }
        i = i + 1;
    }
    false
}

/// Copies `v`, keeping the first occurrence of each text and dropping later
/// repetitions.
pub fn dedup_texts(v: &Vec<String>) -> (r: Vec<String>)
    ensures
        distinct_texts(views_of(r@)),
        same_texts(views_of(r@), views_of(v@)),
        r@.len() <= v@.len(),
{
    let n = v.len();
    let mut out: Vec<String> = Vec::new();
    let mut i: usize = 0;
    while i < n
        invariant
            0 <= i <= n,
            n == v@.len(),
            out@.len() <= i,
            distinct_texts(views_of(out@)),
            same_texts(views_of(out@), views_of(v@.take(i as int))),
        decreases n - i,
    {
        let ghost pre_out = views_of(out@);
        let ghost pre_take = views_of(v@.take(i as int));
        let ghost x = v@[i as int]@;
        let present = texts_contain(&out, v[i].as_str());
        if !present {
            let ghost old_out = out@;
            let elem = v[i].clone();
            assert(elem@ == x);
            out.push(elem);
            proof {
                lemma_views_push(old_out, out@[out@.len() - 1]);
                assert(views_of(out@) =~= pre_out.push(x));
                assert forall|a: int, b: int|
                    0 <= a < b < views_of(out@).len() implies views_of(out@)[a] != views_of(
                    out@,
                )[b] by {
                    if b == views_of(out@).len() - 1 {
                        assert(views_of(out@)[a] == pre_out[a]);
                        assert(!contains_text(pre_out, x));
                    }
                }
            }
        }
        proof {
            let now_take = views_of(v@.take(i + 1));
            assert(v@.take(i + 1) =~= v@.take(i as int).push(v@[i as int]));
            lemma_views_push(v@.take(i as int), v@[i as int]);
            assert(now_take =~= pre_take.push(x));
            assert forall|t: Seq<char>|
                contains_text(views_of(out@), t) == contains_text(now_take, t) by {
                lemma_contains_push(pre_take, x, t);
                if !present {
                    lemma_contains_push(pre_out, x, t);
                }
            }
        }
        i = i + 1;
    }
    proof {
        assert(v@.take(n as int) =~= v@);
    }
    out
}

/// The index at which `s` belongs in the sorted list `out`: every earlier
/// text is at or below `s`, and the text at the index (if any) is above it.
fn find_insert_pos(out: &Vec<String>, s: &str) -> (p: usize)
    ensures
        p <= out@.len(),
        forall|k: int| 0 <= k < p ==> lex_le(views_of(out@)[k], s@),
        p < out@.len() ==> !lex_le(views_of(out@)[p as int], s@),
{
    let n = out.len();
    let mut p: usize = 0;
    while p < n
        invariant
            0 <= p <= n,
            n == out@.len(),
            forall|k: int| 0 <= k < p ==> lex_le(views_of(out@)[k], s@),
        decreases n - p,
    {
        if !str_le(out[p].as_str(), s) {
            return p;
        }
        assert(views_of(out@)[p as int] == out@[p as int]@);
        p = p + 1;
    }
    p
}

/// Copies `v`, already free of repeated texts, into ascending lexicographic
/// order by insertion into a sorted prefix.
pub fn sort_texts(v: &Vec<String>) -> (r: Vec<String>)
    requires
        distinct_texts(views_of(v@)),
    ensures
        sorted_texts(views_of(r@)),
        distinct_texts(views_of(r@)),
        same_texts(views_of(r@), views_of(v@)),
        r@.len() == v@.len(),
{
    let n = v.len();
    let mut out: Vec<String> = Vec::new();
    let mut i: usize = 0;
    while i < n
        invariant
            0 <= i <= n,
            n == v@.len(),
            distinct_texts(views_of(v@)),
            out@.len() == i,
            sorted_texts(views_of(out@)),
            distinct_texts(views_of(out@)),
            same_texts(views_of(out@), views_of(v@.take(i as int))),
        decreases n - i,
    {
        let s = &v[i];
        let ghost x = v@[i as int]@;
        let ghost pre_out = views_of(out@);
        let ghost pre_take = views_of(v@.take(i as int));
        proof {
            assert(forall|k: int|
                0 <= k < i ==> views_of(v@)[k] != #[trigger] views_of(v@)[i as int]);
            if contains_text(pre_take, x) {
                let w = choose|k: int| 0 <= k < pre_take.len() && pre_take[k] == x;
                assert(pre_take[w] == views_of(v@)[w]);
                assert(false);
            }
            assert(!contains_text(pre_out, x));
        }
        let p = find_insert_pos(&out, s.as_str());
        proof {
            if (p as int) < pre_out.len() {
                lemma_lex_le_total(pre_out[p as int], x);
            }
        }
        let ghost old_out = out@;
        out.insert(p, s.clone());
        proof {
            lemma_views_insert(old_out, p as int, out@[p as int]);
            assert(out@[p as int]@ == x);
            assert(views_of(out@) =~= pre_out.insert(p as int, x));
            let b = views_of(out@);
            pre_out.insert_ensures(p as int, x);
            // sortedness and distinctness of the extended prefix
            assert forall|y: int, z: int| 0 <= y < z < b.len() implies lex_le(b[y], b[z]) && b[y]
                != b[z] by {
                if y == p {
                    assert(b[y] == x);
                    assert(b[z] == pre_out[z - 1]);
                    assert(z - 1 >= p);
                    assert(!lex_le(pre_out[p as int], x));
                    if z - 1 > p {
                        assert(lex_le(pre_out[p as int], pre_out[z - 1]));
                    } else {
                        lemma_lex_le_refl(pre_out[p as int]);
                    }
                    lemma_lex_le_transitive(x, pre_out[p as int], pre_out[z - 1]);
                    if b[y] == b[z] {
                        assert(contains_text(pre_out, x));
                    }
                } else if z == p {
                    assert(b[y] == pre_out[y] && b[z] == x);
                    assert(lex_le(pre_out[y], x));
                    if b[y] == b[z] {
                        assert(contains_text(pre_out, x));
                    }
                } else {
                    let ya: int = if y < p { y } else { y - 1 };
                    let za: int = if z < p { z } else { z - 1 };
                    assert(b[y] == pre_out[ya] && b[z] == pre_out[za]);
                    assert(ya < za);
                    assert(lex_le(pre_out[ya], pre_out[za]) && pre_out[ya] != pre_out[za]);
                }
            }
            // membership of the extended prefix
            assert(v@.take(i + 1) =~= v@.take(i as int).push(v@[i as int]));
            lemma_views_push(v@.take(i as int), v@[i as int]);
            assert(views_of(v@.take(i + 1)) =~= pre_take.push(x));
            assert forall|t: Seq<char>|
                contains_text(b, t) == contains_text(views_of(v@.take(i + 1)), t) by {
                lemma_contains_insert(pre_out, p as int, x, t);
                lemma_contains_push(pre_take, x, t);
            }
        }
        i = i + 1;
    }
    proof {
        assert(v@.take(n as int) =~= v@);
    }
    out
}

/// A sorted, duplicate-free list of texts is determined by the set of its
/// members: two such lists with the same members are equal.
pub proof fn lemma_sorted_distinct_canonical(a: Seq<Seq<char>>, b: Seq<Seq<char>>)
    requires
        sorted_texts(a),
        distinct_texts(a),
        sorted_texts(b),
        distinct_texts(b),
        same_texts(a, b),
    ensures
        a == b,
    decreases a.len(),
{
    if a.len() == 0 {
        if b.len() > 0 {
            assert(contains_text(b, b[0]));
            assert(contains_text(a, b[0]));
        }
        assert(a =~= b);
    } else {
        assert(contains_text(a, a[0]));
        assert(contains_text(b, a[0]));
        let j = choose|k: int| 0 <= k < b.len() && b[k] == a[0];
        assert(contains_text(b, b[0]));
        assert(contains_text(a, b[0]));
        let i = choose|k: int| 0 <= k < a.len() && a[k] == b[0];
        // each head is at or below the other: the heads are equal
        if i > 0 {
            assert(lex_le(a[0], a[i]));
        } else {
            lemma_lex_le_refl(a[0]);
        }
        if j > 0 {
            assert(lex_le(b[0], b[j]));
        } else {
            lemma_lex_le_refl(b[0]);
        }
        lemma_lex_le_antisymmetric(a[0], b[0]);
        let at = a.skip(1);
        let bt = b.skip(1);
        assert(forall|k: int| 0 <= k < at.len() ==> #[trigger] at[k] == a[k + 1]);
        assert(forall|k: int| 0 <= k < bt.len() ==> #[trigger] bt[k] == b[k + 1]);
        assert forall|t: Seq<char>| contains_text(at, t) == contains_text(bt, t) by {
            if contains_text(at, t) {
                let k = choose|k: int| 0 <= k < at.len() && at[k] == t;
                assert(a[k + 1] == t);
                assert(contains_text(a, t));
                assert(t != a[0]);
                assert(contains_text(b, t));
                let m = choose|m: int| 0 <= m < b.len() && b[m] == t;
                assert(m != 0);
                assert(bt[m - 1] == t);
                assert(contains_text(bt, t));
            }
            if contains_text(bt, t) {
                let k = choose|k: int| 0 <= k < bt.len() && bt[k] == t;
                assert(b[k + 1] == t);
                assert(contains_text(b, t));
                assert(t != b[0]);
                assert(contains_text(a, t));
                let m = choose|m: int| 0 <= m < a.len() && a[m] == t;
                assert(m != 0);
                assert(at[m - 1] == t);
                assert(contains_text(at, t));
            }
        }
        assert(sorted_texts(at) && distinct_texts(at));
        assert(sorted_texts(bt) && distinct_texts(bt));
        lemma_sorted_distinct_canonical(at, bt);
        assert(a.len() == at.len() + 1 && b.len() == bt.len() + 1);
        assert forall|k: int| 0 <= k < a.len() implies a[k] == b[k] by {
            if k >= 1 {
                assert(at[k - 1] == bt[k - 1]);
            }
        }
        assert(a =~= b);
    }
}

} // verus!
