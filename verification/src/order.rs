//! The order of texts and the sorted lists without repetition that caches and
//! catalogues are built of.
use vstd::prelude::*;

use crate::text;
use crate::text::{chars_of, same_text};

verus! {

/// `a` comes before `b`: the first character in which they differ is smaller, or
/// `a` ends first.
pub open spec fn before(a: Seq<char>, b: Seq<char>) -> bool
    decreases a.len(),
{
    if b.len() == 0 {
        false
    } else if a.len() == 0 {
        true
    } else if a[0] == b[0] {
        before(a.skip(1), b.skip(1))
    } else {
        a[0] < b[0]
    }
}

/// Each text of the list comes before all that follow it.
pub open spec fn ascending(v: Seq<Seq<char>>) -> bool {
    forall|i: int, j: int| 0 <= i < j < v.len() ==> before(#[trigger] v[i], #[trigger] v[j])
}

/// `x` put in its place in an ascending list; the list itself where it holds `x`.
pub open spec fn placed(v: Seq<Seq<char>>, x: Seq<char>) -> Seq<Seq<char>>
    decreases v.len(),
{
    if v.len() == 0 {
        seq![x]
    } else if v.last() == x {
        v
    } else if before(v.last(), x) {
        v.push(x)
    } else {
        placed(v.drop_last(), x).push(v.last())
    }
}

/// The texts of `v` in ascending order, each once.
pub open spec fn sorted(v: Seq<Seq<char>>) -> Seq<Seq<char>>
    decreases v.len(),
{
    if v.len() == 0 {
        seq![]
    } else {
        placed(sorted(v.drop_last()), v.last())
    }
}

/// Of two texts one comes first, or they are the same.
pub proof fn lemma_before_total(a: Seq<char>, b: Seq<char>)
    ensures
        before(a, b) || before(b, a) || a == b,
        !(before(a, b) && before(b, a)),
        !before(a, a),
    decreases a.len(),
{
    if a.len() > 0 && b.len() > 0 && a[0] == b[0] {
        lemma_before_total(a.skip(1), b.skip(1));
        if a.skip(1) == b.skip(1) {
            assert forall|i: int| 0 <= i < a.len() implies a[i] == b[i] by {
                if i > 0 {
                    assert(a.skip(1)[i - 1] == b.skip(1)[i - 1]);
                }
            }
            assert(a.len() == b.len());
            assert(a == b);
        }
    } else if a.len() == 0 && b.len() == 0 {
        assert(a == b);
    }
    lemma_before_irreflexive(a);
}

proof fn lemma_before_irreflexive(a: Seq<char>)
    ensures
        !before(a, a),
    decreases a.len(),
{
    if a.len() > 0 {
        lemma_before_irreflexive(a.skip(1));
    }
}

/// The order is transitive.
pub proof fn lemma_before_transitive(a: Seq<char>, b: Seq<char>, c: Seq<char>)
    requires
        before(a, b),
        before(b, c),
    ensures
        before(a, c),
    decreases a.len(),
{
    if a.len() > 0 && b.len() > 0 && c.len() > 0 && a[0] == b[0] && b[0] == c[0] {
        lemma_before_transitive(a.skip(1), b.skip(1), c.skip(1));
    }
}

/// Placing keeps the order, adds the placed text and nothing else.
pub proof fn lemma_placed(v: Seq<Seq<char>>, x: Seq<char>)
    requires
        ascending(v),
    ensures
        ascending(placed(v, x)),
        forall|y: Seq<char>| #[trigger] placed(v, x).contains(y) <==> v.contains(y) || y == x,
    decreases v.len(),
{
    let r = placed(v, x);
    if v.len() == 0 {
        assert(r[0] == x);
        assert(r.contains(x));
    } else if v.last() == x {
        assert(v[v.len() - 1] == x);
    } else if before(v.last(), x) {
        assert forall|i: int, j: int| 0 <= i < j < r.len() implies before(
            #[trigger] r[i],
            #[trigger] r[j],
        ) by {
            if j == v.len() && i < v.len() - 1 {
                lemma_before_transitive(v[i], v.last(), x);
            }
        }
        assert forall|y: Seq<char>| #[trigger] r.contains(y) <==> v.contains(y) || y == x by {
            assert(r[v.len() as int] == x);
            if v.contains(y) {
                let k = choose|k: int| 0 <= k < v.len() && v[k] == y;
                assert(r[k] == y);
            }
        }
    } else {
        let w = v.drop_last();
        lemma_placed(w, x);
        lemma_before_total(v.last(), x);
        let p = placed(w, x);
        assert forall|i: int, j: int| 0 <= i < j < r.len() implies before(
            #[trigger] r[i],
            #[trigger] r[j],
        ) by {
            if j == p.len() {
                assert(p.contains(p[i]));
                if p[i] != x {
                    let k = choose|k: int| 0 <= k < w.len() && w[k] == p[i];
                    assert(before(v[k], v[v.len() - 1]));
                }
            }
        }
        assert forall|y: Seq<char>| #[trigger] r.contains(y) <==> v.contains(y) || y == x by {
            assert(r[p.len() as int] == v.last());
            if v.contains(y) && y != v.last() {
                let k = choose|k: int| 0 <= k < v.len() && v[k] == y;
                assert(w[k] == y);
            }
            if p.contains(y) {
                let k = choose|k: int| 0 <= k < p.len() && p[k] == y;
                assert(r[k] == y);
            }
            if w.contains(y) {
                let k = choose|k: int| 0 <= k < w.len() && w[k] == y;
                assert(v[k] == y);
            }
            if r.contains(y) && y != v.last() {
                let k = choose|k: int| 0 <= k < r.len() && r[k] == y;
                assert(p[k] == y);
            }
            assert(v[v.len() - 1] == v.last());
        }
    }
}

/// A sorted list is ascending and holds the texts of the list it came from.
pub proof fn law_sorted_is_ascending(v: Seq<Seq<char>>)
    ensures
        ascending(sorted(v)),
        forall|y: Seq<char>| #[trigger] sorted(v).contains(y) <==> v.contains(y),
    decreases v.len(),
{
    if v.len() > 0 {
        law_sorted_is_ascending(v.drop_last());
        lemma_placed(sorted(v.drop_last()), v.last());
        assert forall|y: Seq<char>| #[trigger] sorted(v).contains(y) <==> v.contains(y) by {
            if v.contains(y) && y != v.last() {
                let k = choose|k: int| 0 <= k < v.len() && v[k] == y;
                assert(v.drop_last()[k] == y);
            }
            if v.drop_last().contains(y) {
                let k = choose|k: int| 0 <= k < v.len() - 1 && v.drop_last()[k] == y;
                assert(v[k] == y);
            }
            assert(v[v.len() - 1] == v.last());
        }
    }
}

/// Two ascending lists with the same texts are the same list.
pub proof fn lemma_ascending_unique(a: Seq<Seq<char>>, b: Seq<Seq<char>>)
    requires
        ascending(a),
        ascending(b),
        forall|y: Seq<char>| #[trigger] a.contains(y) <==> b.contains(y),
    ensures
        a == b,
    decreases a.len() + b.len(),
{
    if a.len() == 0 {
        if b.len() > 0 {
            assert(b.contains(b[0]));
            assert(a.contains(b[0]));
        }
        assert(a == b);
    } else if b.len() == 0 {
        assert(a.contains(a[0]));
        assert(b.contains(a[0]));
    } else {
        let x = a.last();
        let y = b.last();
        assert(a.contains(x));
        assert(b.contains(y));
        assert(b.contains(x));
        assert(a.contains(y));
        let i = choose|i: int| 0 <= i < a.len() && a[i] == y;
        let j = choose|j: int| 0 <= j < b.len() && b[j] == x;
        if x != y {
            assert(before(a[i], a[a.len() - 1]));
            assert(before(b[j], b[b.len() - 1]));
            lemma_before_total(x, y);
        }
        let p = a.drop_last();
        let q = b.drop_last();
        assert forall|z: Seq<char>| #[trigger] p.contains(z) <==> q.contains(z) by {
            if p.contains(z) {
                let k = choose|k: int| 0 <= k < p.len() && p[k] == z;
                assert(a[k] == z);
                assert(a.contains(z));
                assert(b.contains(z));
                assert(before(a[k], a[a.len() - 1]));
                lemma_before_total(z, x);
                let m = choose|m: int| 0 <= m < b.len() && b[m] == z;
                assert(q[m] == z);
            }
            if q.contains(z) {
                let k = choose|k: int| 0 <= k < q.len() && q[k] == z;
                assert(b[k] == z);
                assert(b.contains(z));
                assert(a.contains(z));
                assert(before(b[k], b[b.len() - 1]));
                lemma_before_total(z, y);
                let m = choose|m: int| 0 <= m < a.len() && a[m] == z;
                assert(p[m] == z);
            }
        }
        lemma_ascending_unique(p, q);
        assert(a == p.push(x));
        assert(b == q.push(y));
    }
}

/// Sorting forgets order and repetition: lists with the same texts, in whatever
/// order and however often, sort to the same list.
pub proof fn law_sorted_is_order_independent(v: Seq<Seq<char>>, w: Seq<Seq<char>>)
    requires
        forall|y: Seq<char>| #[trigger] v.contains(y) <==> w.contains(y),
    ensures
        sorted(v) == sorted(w),
{
    law_sorted_is_ascending(v);
    law_sorted_is_ascending(w);
    assert forall|y: Seq<char>| #[trigger] sorted(v).contains(y) <==> sorted(w).contains(y) by {
        assert(sorted(v).contains(y) <==> v.contains(y));
        assert(sorted(w).contains(y) <==> w.contains(y));
        assert(v.contains(y) <==> w.contains(y));
    }
    lemma_ascending_unique(sorted(v), sorted(w));
}

/// Whether `a` comes before `b`.
pub fn comes_before(a: &str, b: &str) -> (r: bool)
    ensures
        r == before(a@, b@),
{
    let ca = chars_of(a);
    let cb = chars_of(b);
    let mut i: usize = 0;
    assert(a@.skip(0) == a@ && b@.skip(0) == b@);
    loop
        invariant
            ca@ == a@,
            cb@ == b@,
            i <= ca.len(),
            i <= cb.len(),
            before(a@, b@) == before(a@.skip(i as int), b@.skip(i as int)),
        decreases ca.len() - i,
    {
        if i == cb.len() {
            return false;
        }
        if i == ca.len() {
            return true;
        }
        if ca[i] != cb[i] {
            return ca[i] < cb[i];
        }
        assert(a@.skip(i as int).skip(1) == a@.skip(i + 1));
        assert(b@.skip(i as int).skip(1) == b@.skip(i + 1));
        i += 1;
    }
}

/// Puts `x` in its place in an ascending list.
pub fn place(v: &mut Vec<String>, x: String)
    requires
        ascending(text::texts(old(v)@)),
    ensures
        text::texts(final(v)@) == placed(text::texts(old(v)@), x@),
        ascending(text::texts(final(v)@)),
{
    let ghost t = text::texts(v@);
    proof {
        lemma_placed(t, x@);
    }
    let mut i: usize = v.len();
    assert(t.take(i as int) == t && t.take(i as int) + t.skip(i as int) == t);
    assert(placed(t, x@) + t.skip(i as int) == placed(t, x@));
    while i > 0 && comes_before(x.as_str(), v[i - 1].as_str())
        invariant
            i <= v.len(),
            t == text::texts(v@),
            placed(t, x@) == placed(t.take(i as int), x@) + t.skip(i as int),
        decreases i,
    {
        proof {
            assert(t.take(i as int).last() == v[i - 1]@);
            assert(t.take(i as int).drop_last() == t.take(i - 1));
            lemma_before_total(x@, v[i - 1]@);
            assert(t.skip(i - 1) == seq![t[i - 1]] + t.skip(i as int));
            assert(placed(t, x@) == placed(t.take(i - 1), x@) + t.skip(i - 1));
        }
        i -= 1;
    }
    if i > 0 {
        proof {
            assert(t.take(i as int).last() == v[i - 1]@);
            lemma_before_total(x@, v[i - 1]@);
        }
        if same_text(v[i - 1].as_str(), x.as_str()) {
            assert(t.take(i as int) + t.skip(i as int) == t);
            return;
        }
    }
    let ghost px = x@;
    assert(placed(t.take(i as int), px) == t.take(i as int).push(px));
    v.insert(i, x);
    assert(text::texts(v@) == t.take(i as int).push(px) + t.skip(i as int));
}

/// The texts of `v` in ascending order, each once.
pub fn sort_texts(v: &Vec<String>) -> (r: Vec<String>)
    ensures
        text::texts(r@) == sorted(text::texts(v@)),
        ascending(text::texts(r@)),
{
    let mut r: Vec<String> = Vec::new();
    let mut i: usize = 0;
    assert(text::texts(r@) == sorted(text::texts(v@).take(0)));
    while i < v.len()
        invariant
            i <= v.len(),
            ascending(text::texts(r@)),
            text::texts(r@) == sorted(text::texts(v@).take(i as int)),
        decreases v.len() - i,
    {
        assert(text::texts(v@).take(i + 1).drop_last() == text::texts(v@).take(i as int));
        place(&mut r, v[i].clone());
        i += 1;
    }
    assert(text::texts(v@).take(i as int) == text::texts(v@));
    r
}

/// The order of texts is that of a dictionary: at the first place where they differ the
/// smaller character comes first, and a text comes before what it begins.
pub proof fn law_order_is_that_of_a_dictionary(a: Seq<char>, b: Seq<char>, n: int)
    requires
        0 <= n <= a.len(),
        n <= b.len(),
        a.take(n) == b.take(n),
    ensures
        n < a.len() && n < b.len() && a[n] < b[n] ==> before(a, b) && !before(b, a),
        n == a.len() && n < b.len() ==> before(a, b) && !before(b, a),
        n == a.len() && n == b.len() ==> !before(a, b),
    decreases n,
{
    if n > 0 {
        assert(a.take(n)[0] == a[0]);
        assert(b.take(n)[0] == b[0]);
        assert(a[0] == b[0]);
        assert(a.skip(1).take(n - 1) =~= a.take(n).skip(1));
        assert(b.skip(1).take(n - 1) =~= b.take(n).skip(1));
        law_order_is_that_of_a_dictionary(a.skip(1), b.skip(1), n - 1);
    }
}

} // verus!
