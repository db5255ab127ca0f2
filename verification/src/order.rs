//! Sorting texts.

use vstd::prelude::*;

use crate::text::{chars_of, texts};

verus! {

/// Dictionary order by code points, which is also the order of the UTF-8 bytes.
pub open spec fn text_le(a: Seq<char>, b: Seq<char>) -> bool
    decreases a.len(),
{
    if a.len() == 0 {
        true
    } else if b.len() == 0 {
        false
    } else if a[0] != b[0] {
        a[0] < b[0]
    } else {
        text_le(a.drop_first(), b.drop_first())
    }
}

/// Does `a` come before `b`, or equal it?
pub fn text_not_after(a: &str, b: &str) -> (r: bool)
    ensures
        r == text_le(a@, b@),
{
    let x = chars_of(a);
    let y = chars_of(b);
    let mut i: usize = 0;
    assert(x@.skip(0) =~= x@);
    assert(y@.skip(0) =~= y@);
    while i < x.len() && i < y.len()
        invariant
            x@ == a@,
            y@ == b@,
            i <= x@.len(),
            i <= y@.len(),
            text_le(x@, y@) == text_le(x@.skip(i as int), y@.skip(i as int)),
        decreases x@.len() - i,
    {
        assert(x@.skip(i as int)[0] == x@[i as int]);
        assert(y@.skip(i as int)[0] == y@[i as int]);
        assert(x@.skip(i as int).drop_first() =~= x@.skip(i + 1));
        assert(y@.skip(i as int).drop_first() =~= y@.skip(i + 1));
        if x[i] != y[i] {
            return x[i] < y[i];
        }
        i += 1;
    }
    i == x.len()
}

/// `x` put in its place within the sorted texts `s`.
pub open spec fn insert_text(s: Seq<Seq<char>>, x: Seq<char>) -> Seq<Seq<char>>
    decreases s.len(),
{
    if s.len() == 0 || text_le(s.last(), x) {
        s.push(x)
    } else {
        insert_text(s.drop_last(), x).push(s.last())
    }
}

/// The texts in order.
pub open spec fn sorted_texts(s: Seq<Seq<char>>) -> Seq<Seq<char>>
    decreases s.len(),
{
    if s.len() == 0 {
        Seq::empty()
    } else {
        insert_text(sorted_texts(s.drop_last()), s.last())
    }
}

/// `v.sort()`.
pub fn sort_texts(v: Vec<String>) -> (r: Vec<String>)
    ensures
        texts(r@) == sorted_texts(texts(v@)),
{
    let ghost all = texts(v@);
    let mut r: Vec<String> = Vec::new();
    let mut i: usize = 0;
    assert(texts(r@) =~= sorted_texts(all.take(0)));
    while i < v.len()
        invariant
            i <= v@.len(),
            all == texts(v@),
            texts(r@) == sorted_texts(all.take(i as int)),
        decreases v@.len() - i,
    {
        let x = v[i].clone();
        let ghost sorted = texts(r@);
        let ghost wide = all.take(i + 1);
        proof {
            assert(wide.drop_last() =~= all.take(i as int));
            assert(wide.last() == x@);
        }
        let mut k: usize = r.len();
        assert(sorted.take(k as int) =~= sorted);
        assert(sorted.skip(k as int) =~= Seq::<Seq<char>>::empty());
        assert(insert_text(sorted, x@) =~= insert_text(sorted.take(k as int), x@) + sorted.skip(
            k as int,
        ));
        while k > 0 && !text_not_after(r[k - 1].as_str(), x.as_str())
            invariant
                k <= r@.len(),
                sorted == texts(r@),
                insert_text(sorted, x@) == insert_text(sorted.take(k as int), x@) + sorted.skip(
                    k as int,
                ),
            decreases k,
        {
            proof {
                let head = sorted.take(k as int);
                assert(head.last() == r@[k - 1]@);
                assert(head.drop_last() =~= sorted.take(k - 1));
                assert(insert_text(head, x@) + sorted.skip(k as int) =~= insert_text(
                    sorted.take(k - 1),
                    x@,
                ) + sorted.skip(k - 1));
            }
            k -= 1;
        }
        proof {
            let head = sorted.take(k as int);
            if k > 0 {
                assert(head.last() == r@[k - 1]@);
            }
            assert(insert_text(head, x@) == head.push(x@));
        }
        let ghost before = r@;
        r.insert(k, x);
        proof {
            assert(texts(r@) =~= sorted.take(k as int).push(x@) + sorted.skip(k as int));
        }
        i += 1;
    }
    assert(all.take(i as int) =~= all);
    r
}

// ---------------------------------------------------------------------------
// What sorting does
// ---------------------------------------------------------------------------

proof fn lemma_le_total(a: Seq<char>, b: Seq<char>)
    ensures
        text_le(a, b) || text_le(b, a),
    decreases a.len(),
{
    if a.len() > 0 && b.len() > 0 && a[0] == b[0] {
        lemma_le_total(a.drop_first(), b.drop_first());
    }
}

proof fn lemma_le_transitive(a: Seq<char>, b: Seq<char>, c: Seq<char>)
    requires
        text_le(a, b),
        text_le(b, c),
    ensures
        text_le(a, c),
    decreases a.len(),
{
    if a.len() > 0 && a[0] == b[0] && b[0] == c[0] {
        lemma_le_transitive(a.drop_first(), b.drop_first(), c.drop_first());
    }
}

/// Each text comes no later than the ones behind it.
pub open spec fn in_order(s: Seq<Seq<char>>) -> bool {
    forall|i: int, j: int| 0 <= i <= j < s.len() ==> text_le(#[trigger] s[i], #[trigger] s[j])
}

proof fn lemma_insert(s: Seq<Seq<char>>, x: Seq<char>)
    requires
        in_order(s),
    ensures
        in_order(insert_text(s, x)),
        insert_text(s, x).to_multiset() == s.to_multiset().insert(x),
        forall|i: int|
            0 <= i < insert_text(s, x).len() ==> s.contains(#[trigger] insert_text(s, x)[i])
                || insert_text(s, x)[i] == x,
    decreases s.len(),
{
    broadcast use vstd::seq_lib::group_to_multiset_ensures;

    let t = insert_text(s, x);
    if s.len() == 0 || text_le(s.last(), x) {
        assert(t == s.push(x));
        assert forall|i: int, j: int| 0 <= i <= j < t.len() implies text_le(
            #[trigger] t[i],
            #[trigger] t[j],
        ) by {
            if j == s.len() {
                if i == j {
                    lemma_le_total(x, x);
                } else {
                    assert(text_le(s[i], s[s.len() - 1]));
                    lemma_le_transitive(s[i], s.last(), x);
                }
            } else {
                assert(text_le(s[i], s[j]));
            }
        }
        assert forall|i: int| 0 <= i < t.len() implies s.contains(#[trigger] t[i]) || t[i] == x by {
            if i < s.len() {
                assert(s[i] == t[i]);
            }
        }
    } else {
        let head = s.drop_last();
        let u = insert_text(head, x);
        lemma_insert(head, x);
        assert(t == u.push(s.last()));
        lemma_le_total(s.last(), x);
        assert forall|i: int, j: int| 0 <= i <= j < t.len() implies text_le(
            #[trigger] t[i],
            #[trigger] t[j],
        ) by {
            if j == u.len() {
                if i == j {
                    lemma_le_total(s.last(), s.last());
                } else if u[i] != x {
                    assert(head.contains(u[i]));
                    let k = choose|k: int| 0 <= k < head.len() && head[k] == u[i];
                    assert(text_le(s[k], s[s.len() - 1]));
                }
            } else {
                assert(text_le(u[i], u[j]));
            }
        }
        assert forall|i: int| 0 <= i < t.len() implies s.contains(#[trigger] t[i]) || t[i] == x by {
            if i == u.len() {
                assert(s[s.len() - 1] == t[i]);
            } else if u[i] != x {
                let k = choose|k: int| 0 <= k < head.len() && head[k] == u[i];
                assert(s[k] == t[i]);
            }
        }
        assert(s =~= head.push(s.last()));
        assert(t.to_multiset() =~= s.to_multiset().insert(x));
    }
}

/// Sorting puts the texts in order and neither adds nor drops any.
pub proof fn law_sorting(s: Seq<Seq<char>>)
    ensures
        in_order(sorted_texts(s)),
        sorted_texts(s).to_multiset() == s.to_multiset(),
    decreases s.len(),
{
    broadcast use vstd::seq_lib::group_to_multiset_ensures;

    if s.len() > 0 {
        law_sorting(s.drop_last());
        lemma_insert(sorted_texts(s.drop_last()), s.last());
        assert(s =~= s.drop_last().push(s.last()));
    } else {
        assert(sorted_texts(s) =~= s);
    }
}

/// A text comes before another if it begins it, or if it has the lower character
/// where they first differ.
pub proof fn law_dictionary_order(a: Seq<char>, b: Seq<char>, k: int)
    requires
        0 <= k <= a.len(),
        k <= b.len(),
        a.take(k) == b.take(k),
        k < a.len() && k < b.len() ==> a[k] != b[k],
    ensures
        text_le(a, b) <==> k == a.len() || (k < b.len() && a[k] < b[k]),
    decreases a.len(),
{
    if k > 0 {
        assert(a[0] == a.take(k)[0] && b[0] == b.take(k)[0]);
        assert(a.drop_first().take(k - 1) =~= a.take(k).drop_first());
        assert(b.drop_first().take(k - 1) =~= b.take(k).drop_first());
        if k < a.len() {
            assert(a.drop_first()[k - 1] == a[k]);
        }
        if k < b.len() {
            assert(b.drop_first()[k - 1] == b[k]);
        }
        law_dictionary_order(a.drop_first(), b.drop_first(), k - 1);
    }
}

} // verus!
