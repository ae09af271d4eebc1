//! Text renderings of traces and node lists.

use vstd::prelude::*;
use vstd::string::{StringExecFns, StrSliceExecFns};
use crate::dag::graph::texts;

verus! {

/// Rendering of `t[i..]` after the first node: each event/node pair as
/// ` -[event]-> node`, a lone trailing entry as ` → entry`.
pub open spec fn arrow_tail(t: Seq<Seq<char>>, i: int) -> Seq<char>
    decreases t.len() - i,
{
    if i < 0 || i >= t.len() {
        Seq::empty()
    } else if i + 1 < t.len() {
        " -["@ + t[i] + "]-> "@ + t[i + 1] + arrow_tail(t, i + 2)
    } else {
        " → "@ + t[i] + arrow_tail(t, i + 1)
    }
}

/// `node0 -[event0]-> node1 -[event1]-> ...`; `empty` for an empty trace.
pub open spec fn arrow_chain(t: Seq<Seq<char>>, empty: Seq<char>) -> Seq<char> {
    if t.len() == 0 {
        empty
    } else {
        t[0] + arrow_tail(t, 1)
    }
}

/// Appends the arrow rendering of `trace` to `out` (or `empty` when the trace
/// is empty).
pub fn push_arrow_chain(out: &mut String, trace: &Vec<String>, empty: &str)
    ensures
        final(out)@ == old(out)@ + arrow_chain(texts(trace@), empty@),
{
    let ghost t = texts(trace@);
    let ghost start = out@;
    if trace.len() == 0 {
        out.append(empty);
        return;
    }
    out.append(trace[0].as_str());
    let mut i: usize = 1;
    while i < trace.len()
        invariant
            1 <= i <= trace@.len() + 1,
            t == texts(trace@),
            t.len() > 0,
            out@ + arrow_tail(t, i as int) == start + arrow_chain(t, empty@),
        decreases trace@.len() + 1 - i,
    {
        let ghost before = out@;
        if i + 1 < trace.len() {
            out.append(" -[");
            out.append(trace[i].as_str());
            out.append("]-> ");
            out.append(trace[i + 1].as_str());
            assert(out@ == before + (" -["@ + t[i as int] + "]-> "@ + t[i + 1]));
            assert(before + arrow_tail(t, i as int) == before + (" -["@ + t[i as int] + "]-> "@
                + t[i + 1]) + arrow_tail(t, i + 2));
            i = i + 2;
        } else {
            out.append(" → ");
            out.append(trace[i].as_str());
            assert(out@ == before + (" → "@ + t[i as int]));
            assert(before + arrow_tail(t, i as int) == before + (" → "@ + t[i as int])
                + arrow_tail(t, i + 1));
            i = i + 1;
        }
    }
    assert(arrow_tail(t, i as int) == Seq::<char>::empty());
    assert(out@ + Seq::<char>::empty() == out@);
}

/// Lexicographic order on texts, character by character (the order of
/// `String`'s `Ord`, since UTF-8 preserves the order of code points).
pub open spec fn text_lt(a: Seq<char>, b: Seq<char>) -> bool
    decreases a.len(),
{
    if b.len() == 0 {
        false
    } else if a.len() == 0 {
        true
    } else if a[0] < b[0] {
        true
    } else if a[0] == b[0] {
        text_lt(a.drop_first(), b.drop_first())
    } else {
        false
    }
}

pub proof fn lemma_text_lt_irreflexive(a: Seq<char>)
    ensures
        !text_lt(a, a),
    decreases a.len(),
{
    if a.len() > 0 {
        lemma_text_lt_irreflexive(a.drop_first());
    }
}

pub proof fn lemma_text_lt_transitive(a: Seq<char>, b: Seq<char>, c: Seq<char>)
    requires
        text_lt(a, b),
        text_lt(b, c),
    ensures
        text_lt(a, c),
    decreases a.len(),
{
    if a.len() > 0 && b.len() > 0 && c.len() > 0 && a[0] == b[0] && b[0] == c[0] {
        lemma_text_lt_transitive(a.drop_first(), b.drop_first(), c.drop_first());
    }
}

pub proof fn lemma_text_lt_total(a: Seq<char>, b: Seq<char>)
    requires
        a != b,
    ensures
        text_lt(a, b) || text_lt(b, a),
    decreases a.len(),
{
    if a.len() > 0 && b.len() > 0 {
        if a[0] == b[0] {
            if a.drop_first() == b.drop_first() {
                assert(a =~= seq![a[0]] + a.drop_first());
                assert(b =~= seq![b[0]] + b.drop_first());
            }
            lemma_text_lt_total(a.drop_first(), b.drop_first());
        } else {
        }
    } else if a.len() == 0 && b.len() == 0 {
        assert(a =~= b);
    }
}

/// `a@` comes before `b@` in lexicographic order.
pub fn text_less(a: &str, b: &str) -> (r: bool)
    ensures
        r == text_lt(a@, b@),
{
    let la = a.unicode_len();
    let lb = b.unicode_len();
    let mut i: usize = 0;
    assert(a@.skip(0) =~= a@);
    assert(b@.skip(0) =~= b@);
    while i < la && i < lb
        invariant
            la == a@.len(),
            lb == b@.len(),
            i <= la,
            i <= lb,
            text_lt(a@, b@) == text_lt(a@.skip(i as int), b@.skip(i as int)),
        decreases la - i,
    {
        let ca = a.get_char(i);
        let cb = b.get_char(i);
        assert(a@.skip(i as int)[0] == ca);
        assert(b@.skip(i as int)[0] == cb);
        if ca < cb {
            return true;
        }
        if ca != cb {
            return false;
        }
        assert(a@.skip(i as int).drop_first() =~= a@.skip(i + 1));
        assert(b@.skip(i as int).drop_first() =~= b@.skip(i + 1));
        i = i + 1;
    }
    assert(a@.skip(i as int).len() == la - i);
    i < lb
}

/// Every earlier text is below every later one.
pub open spec fn strictly_sorted(s: Seq<Seq<char>>) -> bool {
    forall|i: int, j: int| 0 <= i < j < s.len() ==> text_lt(#[trigger] s[i], #[trigger] s[j])
}

/// Two strictly sorted lists of the same texts are the same list.
pub proof fn lemma_sorted_lists_equal(s: Seq<Seq<char>>, t: Seq<Seq<char>>)
    requires
        strictly_sorted(s),
        strictly_sorted(t),
        forall|x: Seq<char>| s.contains(x) <==> t.contains(x),
    ensures
        s == t,
    decreases s.len() + t.len(),
{
    if s.len() == 0 || t.len() == 0 {
        if s.len() > 0 {
            assert(s.contains(s[0]));
        }
        if t.len() > 0 {
            assert(t.contains(t[0]));
        }
        assert(s =~= t);
    } else {
        assert(s.contains(s[0]));
        let j = choose|j: int| 0 <= j < t.len() && t[j] == s[0];
        assert(t.contains(t[0]));
        let k = choose|k: int| 0 <= k < s.len() && s[k] == t[0];
        if j > 0 {
            assert(text_lt(t[0], t[j]));
            if k > 0 {
                assert(text_lt(s[0], s[k]));
                lemma_text_lt_transitive(s[0], t[0], s[0]);
            }
            lemma_text_lt_irreflexive(s[0]);
        }
        let s1 = s.drop_first();
        let t1 = t.drop_first();
        assert forall|x: Seq<char>| s1.contains(x) <==> t1.contains(x) by {
            if s1.contains(x) {
                let a = choose|a: int| 0 <= a < s1.len() && s1[a] == x;
                assert(text_lt(s[0], s[a + 1]));
                lemma_text_lt_irreflexive(x);
                assert(s.contains(x));
                let b = choose|b: int| 0 <= b < t.len() && t[b] == x;
                assert(b != 0);
                assert(t1[b - 1] == x);
            }
            if t1.contains(x) {
                let a = choose|a: int| 0 <= a < t1.len() && t1[a] == x;
                assert(text_lt(t[0], t[a + 1]));
                lemma_text_lt_irreflexive(x);
                assert(t.contains(x));
                let b = choose|b: int| 0 <= b < s.len() && s[b] == x;
                assert(b != 0);
                assert(s1[b - 1] == x);
            }
        }
        assert forall|a: int, b: int| 0 <= a < b < s1.len() implies text_lt(#[trigger] s1[a], #[trigger] s1[b]) by {
            assert(text_lt(s[a + 1], s[b + 1]));
        }
        assert forall|a: int, b: int| 0 <= a < b < t1.len() implies text_lt(#[trigger] t1[a], #[trigger] t1[b]) by {
            assert(text_lt(t[a + 1], t[b + 1]));
        }
        lemma_sorted_lists_equal(s1, t1);
        assert(s =~= seq![s[0]] + s1);
        assert(t =~= seq![t[0]] + t1);
    }
}

/// Inserts `x` into the strictly sorted list `v`, unless it is there already.
pub fn insert_sorted(v: &mut Vec<String>, x: String)
    requires
        strictly_sorted(texts(old(v)@)),
    ensures
        strictly_sorted(texts(final(v)@)),
        forall|n: Seq<char>| #[trigger] texts(final(v)@).contains(n) <==> (texts(old(v)@).contains(n) || n == x@),
{
    let ghost old_t = texts(v@);
    let mut p: usize = 0;
    while p < v.len() && text_less(v[p].as_str(), x.as_str())
        invariant
            p <= v@.len(),
            old_t == texts(v@),
            forall|i: int| 0 <= i < p ==> text_lt(#[trigger] old_t[i], x@),
        decreases v@.len() - p,
    {
        p = p + 1;
    }
    if p < v.len() && v[p] == x {
        assert(old_t[p as int] == x@);
        assert forall|n: Seq<char>| #[trigger] texts(v@).contains(n) <==> (old_t.contains(n) || n == x@) by {
            if n == x@ {
                assert(texts(v@)[p as int] == n);
            }
        }
        return;
    }
    proof {
        if p < v@.len() {
            assert(!text_lt(old_t[p as int], x@));
            assert(old_t[p as int] != x@);
            lemma_text_lt_total(old_t[p as int], x@);
        }
    }
    v.insert(p, x);
    let ghost t = texts(v@);
    assert(t =~= old_t.insert(p as int, x@));
    assert forall|i: int, j: int| 0 <= i < j < t.len() implies text_lt(#[trigger] t[i], #[trigger] t[j]) by {
        if j < p {
        } else if j == p {
        } else if i < p {
            assert(text_lt(old_t[i], x@));
            assert(text_lt(x@, old_t[p as int]));
            if j - 1 > p {
                assert(text_lt(old_t[p as int], old_t[j - 1]));
                lemma_text_lt_transitive(x@, old_t[p as int], old_t[j - 1]);
            }
            lemma_text_lt_transitive(old_t[i], x@, old_t[j - 1]);
        } else if i == p {
            if j - 1 > p {
                assert(text_lt(old_t[p as int], old_t[j - 1]));
                lemma_text_lt_transitive(x@, old_t[p as int], old_t[j - 1]);
            }
        } else {
            assert(text_lt(old_t[i - 1], old_t[j - 1]));
        }
    }
    assert forall|n: Seq<char>| #[trigger] t.contains(n) <==> (old_t.contains(n) || n == x@) by {
        if old_t.contains(n) {
            let k = choose|k: int| 0 <= k < old_t.len() && old_t[k] == n;
            if k < p {
                assert(t[k] == n);
            } else {
                assert(t[k + 1] == n);
            }
        }
        if n == x@ {
            assert(t[p as int] == n);
        }
        if t.contains(n) {
            let k = choose|k: int| 0 <= k < t.len() && t[k] == n;
            if k < p {
                assert(old_t[k] == n);
            } else if k > p {
                assert(old_t[k - 1] == n);
            }
        }
    }
}

/// The texts separated by `sep`.
pub open spec fn joined(t: Seq<Seq<char>>, sep: Seq<char>) -> Seq<char>
    decreases t.len(),
{
    if t.len() == 0 {
        Seq::empty()
    } else if t.len() == 1 {
        t[0]
    } else {
        joined(t.drop_last(), sep) + sep + t.last()
    }
}

/// Appends the items of `items`, separated by `sep`, to `out`.
pub fn push_joined(out: &mut String, items: &Vec<String>, sep: &str)
    ensures
        final(out)@ == old(out)@ + joined(texts(items@), sep@),
{
    let ghost start = out@;
    let ghost t = texts(items@);
    let mut i: usize = 0;
    while i < items.len()
        invariant
            i <= items@.len(),
            t == texts(items@),
            out@ == start + joined(t.take(i as int), sep@),
        decreases items@.len() - i,
    {
        let ghost before = out@;
        if i > 0 {
            out.append(sep);
        }
        out.append(items[i].as_str());
        assert(t.take(i + 1).drop_last() =~= t.take(i as int));
        if i == 0 {
            assert(t.take(0) =~= Seq::<Seq<char>>::empty());
            assert(joined(t.take(1), sep@) == t[0]);
        }
        i = i + 1;
    }
    assert(t.take(items@.len() as int) =~= t);
}

} // verus!
