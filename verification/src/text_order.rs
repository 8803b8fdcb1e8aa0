use vstd::prelude::*;
use vstd::relations::{sorted_by, total_ordering};

verus! {

/// Lexicographic order on character sequences, comparing characters by their
/// code points. For Rust strings this is the order of `String`'s `Ord`
/// (UTF-8 preserves code point order byte-wise).
pub open spec fn chars_le(a: Seq<char>, b: Seq<char>) -> bool
    decreases a.len(),
{
    if a.len() == 0 {
        true
    } else if b.len() == 0 {
        false
    } else if a[0] != b[0] {
        (a[0] as u32) < (b[0] as u32)
    } else {
        chars_le(a.drop_first(), b.drop_first())
    }
}

/// `chars_le` as a relation value, for use with vstd's sorting specifications.
pub open spec fn text_order() -> spec_fn(Seq<char>, Seq<char>) -> bool {
    |a: Seq<char>, b: Seq<char>| chars_le(a, b)
}

proof fn lemma_chars_le_reflexive(a: Seq<char>)
    ensures
        chars_le(a, a),
    decreases a.len(),
{
    if a.len() > 0 {
        lemma_chars_le_reflexive(a.drop_first());
    }
}

proof fn lemma_chars_le_antisymmetric(a: Seq<char>, b: Seq<char>)
    requires
        chars_le(a, b),
        chars_le(b, a),
    ensures
        a == b,
    decreases a.len(),
{
    if a.len() > 0 && b.len() > 0 {
        lemma_chars_le_antisymmetric(a.drop_first(), b.drop_first());
        assert(a =~= seq![a[0]] + a.drop_first());
        assert(b =~= seq![b[0]] + b.drop_first());
    }
    if a.len() == 0 && b.len() == 0 {
        assert(a =~= b);
    }
}

proof fn lemma_chars_le_transitive(a: Seq<char>, b: Seq<char>, c: Seq<char>)
    requires
        chars_le(a, b),
        chars_le(b, c),
    ensures
        chars_le(a, c),
    decreases a.len(),
{
    if a.len() > 0 && b.len() > 0 && c.len() > 0 {
        if a[0] == b[0] && b[0] == c[0] {
            lemma_chars_le_transitive(a.drop_first(), b.drop_first(), c.drop_first());
        }
    }
}

proof fn lemma_chars_le_connected(a: Seq<char>, b: Seq<char>)
    ensures
        chars_le(a, b) || chars_le(b, a),
    decreases a.len(),
{
    if a.len() > 0 && b.len() > 0 {
        if a[0] == b[0] {
            lemma_chars_le_connected(a.drop_first(), b.drop_first());
        } else {
            vstd::utf8::char_u32_cast(a[0], a[0] as u32);
            vstd::utf8::char_u32_cast(b[0], b[0] as u32);
        }
    }
}

/// The text order is a total order.
pub proof fn lemma_text_order_total()
    ensures
        total_ordering(text_order()),
{
    let r = text_order();
    assert forall|x: Seq<char>| #[trigger] r(x, x) by {
        lemma_chars_le_reflexive(x);
    }
    assert forall|x: Seq<char>, y: Seq<char>| #[trigger] r(x, y) && #[trigger] r(y, x) implies x
        == y by {
        lemma_chars_le_antisymmetric(x, y);
    }
    assert forall|x: Seq<char>, y: Seq<char>, z: Seq<char>| #[trigger] r(x, y) && #[trigger] r(
        y,
        z,
    ) implies r(x, z) by {
        lemma_chars_le_transitive(x, y, z);
    }
    assert forall|x: Seq<char>, y: Seq<char>| #[trigger] r(x, y) || #[trigger] r(y, x) by {
        lemma_chars_le_connected(x, y);
    }
}

/// Compares two strings in the text order.
pub fn text_le(a: &str, b: &str) -> (res: bool)
    ensures
        res == chars_le(a@, b@),
{
    let la = a.unicode_len();
    let lb = b.unicode_len();
    let mut i: usize = 0;
    assert(a@.skip(0) =~= a@);
    assert(b@.skip(0) =~= b@);
    while i < la && i < lb
        invariant
            la == a@.len(),
            lb == b@.len(),
            i <= la,
            i <= lb,
            chars_le(a@, b@) == chars_le(a@.skip(i as int), b@.skip(i as int)),
        decreases la - i,
    {
        let ca = a.get_char(i);
        let cb = b.get_char(i);
        if ca != cb {
            return (ca as u32) < (cb as u32);
        }
        assert(a@.skip(i as int).drop_first() =~= a@.skip(i + 1));
        assert(b@.skip(i as int).drop_first() =~= b@.skip(i + 1));
        i = i + 1;
    }
    i == la
}

/// Sorts strings into the text order (the order of `String`'s `Ord`).
pub fn sort_texts(v: Vec<String>) -> (res: Vec<String>)
    ensures
        res.deep_view() == v.deep_view().sort_by(text_order()),
        sorted_by(res.deep_view(), text_order()),
        res.deep_view().to_multiset() == v.deep_view().to_multiset(),
{
    broadcast use vstd::seq_lib::group_to_multiset_ensures;

    proof {
        lemma_text_order_total();
    }
    let ghost order = text_order();
    let mut res: Vec<String> = Vec::new();
    let n = v.len();
    let mut i: usize = 0;
    while i < n
        invariant
            n == v.len(),
            i <= n,
            total_ordering(order),
            order == text_order(),
            sorted_by(res.deep_view(), order),
            res.deep_view().to_multiset() == v.deep_view().subrange(0, i as int).to_multiset(),
        decreases n - i,
    {
        let x = v[i].clone();
        let mut k: usize = 0;
        while k < res.len() && text_le(res[k].as_str(), x.as_str())
            invariant
                k <= res.len(),
                forall|j: int| 0 <= j < k ==> chars_le(#[trigger] res.deep_view()[j], x@),
            decreases res.len() - k,
        {
            k = k + 1;
        }
        let ghost before = res.deep_view();
        res.insert(k, x);
        proof {
            let after = res.deep_view();
            assert(after =~= before.insert(k as int, x@));
            vstd::seq_lib::to_multiset_insert(before, k as int, x@);
            assert forall|a: int, b: int| 0 <= a < b < after.len() implies #[trigger] order(
                after[a],
                after[b],
            ) by {
                if b < k {
                    assert(after[a] == before[a] && after[b] == before[b]);
                } else if b == k {
                    assert(after[a] == before[a]);
                } else if a < k {
                    assert(after[a] == before[a] && after[b] == before[b - 1]);
                    assert(order(before[a], x@));
                    if k < before.len() {
                        assert(order(before[k as int], before[b - 1]) || k == b - 1);
                        assert(!order(before[k as int], x@));
                        assert(order(before[k as int], x@) || order(x@, before[k as int]));
                        assert(order(x@, before[k as int]));
                        assert(order(before[a], before[b - 1]));
                    }
                } else if a == k {
                    assert(after[b] == before[b - 1]);
                    assert(!order(before[k as int], x@));
                    assert(order(before[k as int], x@) || order(x@, before[k as int]));
                    assert(order(x@, before[k as int]));
                    assert(order(before[k as int], before[b - 1]) || k == b - 1);
                } else {
                    assert(after[a] == before[a - 1] && after[b] == before[b - 1]);
                }
            }
            assert(v.deep_view().subrange(0, i + 1) =~= v.deep_view().subrange(0, i as int).push(
                x@,
            ));
            vstd::seq_lib::to_multiset_build(v.deep_view().subrange(0, i as int), x@);
        }
        i = i + 1;
    }
    proof {
        assert(v.deep_view().subrange(0, n as int) =~= v.deep_view());
        v.deep_view().lemma_sort_by_ensures(order);
        vstd::seq_lib::lemma_sorted_unique(res.deep_view(), v.deep_view().sort_by(order), order);
    }
    res
}

} // verus!
