//! The order of texts, and lists in that order without repeats.

use vstd::prelude::*;
use crate::text::{chars_of, texts};

verus! {

/// `a` stands before `b`: texts are ordered by their first differing character, and a text stands
/// before those that it begins.
pub open spec fn before(a: Seq<char>, b: Seq<char>) -> bool
    decreases a.len(),
{
    if b.len() == 0 {
        false
    } else if a.len() == 0 {
        true
    } else if a[0] == b[0] {
        before(a.skip(1), b.skip(1))
    } else {
        a[0] < b[0]
    }
}

/// Each text of the list stands before all that follow.
pub open spec fn in_order(list: Seq<Seq<char>>) -> bool {
    forall|i: int, j: int| 0 <= i < j < list.len() ==> before(#[trigger] list[i], #[trigger] list[j])
}

/// `list` holds the texts of `of`, each once, in order.
pub open spec fn ordered_set(list: Seq<Seq<char>>, of: Seq<Seq<char>>) -> bool {
    &&& in_order(list)
    &&& forall|t: Seq<char>| #[trigger] list.contains(t) <==> of.contains(t)
}

/// Texts are ordered as in a dictionary: a text stands before every longer one that it begins, and of
/// two that part at a character the one with the smaller character stands first.
pub proof fn texts_are_ordered_by_their_first_difference(
    common: Seq<char>,
    x: char,
    a: Seq<char>,
    y: char,
    b: Seq<char>,
)
    ensures
        before(common, common + seq![x] + a),
        !before(common + seq![x] + a, common),
        x < y ==> before(common + seq![x] + a, common + seq![y] + b),
        x < y ==> !before(common + seq![y] + b, common + seq![x] + a),
    decreases common.len(),
{
    let p = common + seq![x] + a;
    let q = common + seq![y] + b;
    if common.len() == 0 {
        assert(p[0] == x && q[0] == y);
    } else {
        let rest = common.skip(1);
        assert(p[0] == common[0] && q[0] == common[0]);
        assert(p.skip(1) =~= rest + seq![x] + a);
        assert(q.skip(1) =~= rest + seq![y] + b);
        texts_are_ordered_by_their_first_difference(rest, x, a, y, b);
    }
}

pub proof fn lemma_before_irreflexive(a: Seq<char>)
    ensures
        !before(a, a),
    decreases a.len(),
{
    if a.len() > 0 {
        lemma_before_irreflexive(a.skip(1));
    }
}

pub proof fn lemma_before_transitive(a: Seq<char>, b: Seq<char>, c: Seq<char>)
    requires
        before(a, b),
        before(b, c),
    ensures
        before(a, c),
    decreases a.len(),
{
    if a.len() > 0 && a[0] == b[0] && b[0] == c[0] {
        lemma_before_transitive(a.skip(1), b.skip(1), c.skip(1));
    }
}

pub proof fn lemma_before_total(a: Seq<char>, b: Seq<char>)
    ensures
        before(a, b) || before(b, a) || a == b,
    decreases a.len(),
{
    if a.len() > 0 && b.len() > 0 {
        if a[0] == b[0] {
            lemma_before_total(a.skip(1), b.skip(1));
            if a.skip(1) == b.skip(1) {
                assert(a == seq![a[0]] + a.skip(1));
                assert(b == seq![b[0]] + b.skip(1));
            }
        }
    } else if a.len() == 0 && b.len() == 0 {
        assert(a == b);
    }
}

/// Two ordered lists of the same texts are the same list.
pub proof fn lemma_ordered_set_unique(x: Seq<Seq<char>>, y: Seq<Seq<char>>, of: Seq<Seq<char>>)
    requires
        ordered_set(x, of),
        ordered_set(y, of),
    ensures
        x == y,
    decreases x.len(),
{
    if x.len() == 0 {
        if y.len() > 0 {
            assert(y.contains(y[0]));
            assert(x.contains(y[0]));
        }
        assert(x == y);
    } else {
        assert(x.contains(x[0]));
        assert(y.contains(x[0]));
        assert(y.contains(y[0]));
        assert(x.contains(y[0]));
        let i = choose|i: int| 0 <= i < y.len() && y[i] == x[0];
        let j = choose|j: int| 0 <= j < x.len() && x[j] == y[0];
        if i > 0 {
            assert(before(y[0], y[i]));
            lemma_before_irreflexive(x[0]);
            if j > 0 {
                assert(before(x[0], x[j]));
                lemma_before_transitive(x[0], y[0], x[0]);
            }
        }
        assert(x[0] == y[0]);
        let xr = x.skip(1);
        let yr = y.skip(1);
        lemma_before_irreflexive(x[0]);
        assert forall|t: Seq<char>| #[trigger] xr.contains(t) <==> yr.contains(t) by {
            if xr.contains(t) {
                let m = choose|m: int| 0 <= m < xr.len() && xr[m] == t;
                assert(before(x[0], x[m + 1]));
                assert(x.contains(t));
                assert(y.contains(t));
                let p = choose|p: int| 0 <= p < y.len() && y[p] == t;
                assert(p > 0);
                assert(yr[p - 1] == t);
            }
            if yr.contains(t) {
                let m = choose|m: int| 0 <= m < yr.len() && yr[m] == t;
                assert(before(y[0], y[m + 1]));
                assert(y.contains(t));
                assert(x.contains(t));
                let p = choose|p: int| 0 <= p < x.len() && x[p] == t;
                assert(p > 0);
                assert(xr[p - 1] == t);
            }
        }
        assert(in_order(xr));
        assert(in_order(yr));
        lemma_ordered_set_unique(xr, yr, xr);
        assert(x == seq![x[0]] + xr);
        assert(y == seq![y[0]] + yr);
    }
}

/// Whether `a` stands before `b`.
pub fn text_before(a: &str, b: &str) -> (r: bool)
    ensures
        r == before(a@, b@),
{
    let x = chars_of(a);
    let y = chars_of(b);
    let n: usize = x.len();
    let m: usize = y.len();
    let mut i: usize = 0;
    assert(x@.skip(0) == x@);
    assert(y@.skip(0) == y@);
    while i < n && i < m
        invariant
            x@ == a@,
            y@ == b@,
            n == x@.len(),
            m == y@.len(),
            i <= n,
            i <= m,
            before(a@, b@) == before(x@.skip(i as int), y@.skip(i as int)),
        decreases n - i,
    {
        assert(x@.skip(i as int).skip(1) == x@.skip(i + 1));
        assert(y@.skip(i as int).skip(1) == y@.skip(i + 1));
        if x[i] != y[i] {
            return x[i] < y[i];
        }
        i += 1;
    }
    i < m
}

/// Puts `item` into the ordered list `list`, unless it is there already.
pub fn insert_ordered(list: &mut Vec<String>, item: &str)
    requires
        in_order(texts(old(list)@)),
    ensures
        in_order(texts(final(list)@)),
        forall|t: Seq<char>| #[trigger]
            texts(final(list)@).contains(t) <==> t == item@ || texts(old(list)@).contains(t),
{
    let ghost was = texts(list@);
    let n: usize = list.len();
    let mut i: usize = 0;
    while i < n && text_before(list[i].as_str(), item)
        invariant
            i <= n == list@.len(),
            was == texts(list@),
            list@ == old(list)@,
            forall|j: int| 0 <= j < i ==> before(was[j], item@),
        decreases n - i,
    {
        i += 1;
    }
    if i < n && !text_before(item, list[i].as_str()) {
        proof {
            lemma_before_total(item@, was[i as int]);
            assert(was[i as int] == item@);
            assert(was.contains(item@));
        }
        return;
    }
    list.insert(i, item.to_owned());
    proof {
        let now = texts(list@);
        assert(now == was.insert(i as int, item@));
        assert forall|p: int, q: int| 0 <= p < q < now.len() implies before(
            #[trigger] now[p],
            #[trigger] now[q],
        ) by {
            if p == i {
                if q - 1 > i {
                    assert(before(was[i as int], was[q - 1]));
                    lemma_before_transitive(item@, was[i as int], was[q - 1]);
                }
            }
        }
        assert forall|t: Seq<char>| #[trigger] now.contains(t) <==> t == item@ || was.contains(t) by {
            if was.contains(t) {
                let m = choose|m: int| 0 <= m < was.len() && was[m] == t;
                if m < i {
                    assert(now[m] == t);
                } else {
                    assert(now[m + 1] == t);
                }
            }
            if t == item@ {
                assert(now[i as int] == t);
            }
            if now.contains(t) {
                let m = choose|m: int| 0 <= m < now.len() && now[m] == t;
                if m < i {
                    assert(was[m] == t);
                } else if m > i {
                    assert(was[m - 1] == t);
                }
            }
        }
    }
}

/// The texts of `items` in order, each once.
pub fn sort_dedup(items: &Vec<String>) -> (r: Vec<String>)
    ensures
        ordered_set(texts(r@), texts(items@)),
{
    let mut out: Vec<String> = Vec::new();
    let n: usize = items.len();
    let mut i: usize = 0;
    let ghost all = texts(items@);
    while i < n
        invariant
            i <= n == items@.len(),
            all == texts(items@),
            ordered_set(texts(out@), all.take(i as int)),
        decreases n - i,
    {
        insert_ordered(&mut out, items[i].as_str());
        proof {
            assert(all.take(i + 1) == all.take(i as int).push(all[i as int]));
            assert forall|t: Seq<char>| #[trigger] texts(out@).contains(t) <==> all.take(
                i + 1,
            ).contains(t) by {
                let shorter = all.take(i as int);
                let longer = all.take(i + 1);
                if longer.contains(t) && t != all[i as int] {
                    let m = choose|m: int| 0 <= m < longer.len() && longer[m] == t;
                    assert(shorter[m] == t);
                }
                if shorter.contains(t) {
                    let m = choose|m: int| 0 <= m < shorter.len() && shorter[m] == t;
                    assert(longer[m] == t);
                }
                assert(longer[i as int] == all[i as int]);
            }
        }
        i += 1;
    }
    assert(all.take(n as int) == all);
    out
}

} // verus!
