//! Lexicographic order on character sequences, used to sort the
//! configuration listing.  Characters compare by code point, so the order
//! agrees with the byte-wise order on the UTF-8 encodings.

use vstd::prelude::*;

verus! {

/// Strict lexicographic order by code point: `a` comes before `b`.
pub open spec fn chars_lt(a: Seq<char>, b: Seq<char>) -> bool
    decreases a.len(),
{
    if b.len() == 0 {
        false
    } else if a.len() == 0 {
        true
    } else if a[0] == b[0] {
        chars_lt(a.skip(1), b.skip(1))
    } else {
        (a[0] as int) < (b[0] as int)
    }
}

/// The order is total: two sequences compare one way, the other, or are equal.
pub proof fn lemma_chars_lt_total(a: Seq<char>, b: Seq<char>)
    ensures
        chars_lt(a, b) || chars_lt(b, a) || a == b,
    decreases a.len(),
{
    if a.len() == 0 && b.len() == 0 {
        assert(a =~= b);
    } else if a.len() == 0 || b.len() == 0 {
        assert(chars_lt(a, b) || chars_lt(b, a));
    } else if a[0] != b[0] {
        assert((a[0] as int) != (b[0] as int));
        assert(chars_lt(a, b) || chars_lt(b, a));
    } else if a.len() != 0 && b.len() != 0 && a[0] == b[0] {
        lemma_chars_lt_total(a.skip(1), b.skip(1));
        if !chars_lt(a, b) && !chars_lt(b, a) {
            assert(a =~= b) by {
                assert(a.skip(1) == b.skip(1));
                assert(forall|i: int|
                    1 <= i < a.len() ==> #[trigger] a[i] == a.skip(1)[i - 1] && b[i] == b.skip(1)[i
                        - 1]);
            }
        }
    }
}

/// The order is transitive.
pub proof fn lemma_chars_lt_trans(a: Seq<char>, b: Seq<char>, c: Seq<char>)
    requires
        chars_lt(a, b),
        chars_lt(b, c),
    ensures
        chars_lt(a, c),
    decreases a.len(),
{
    if a.len() != 0 && b.len() != 0 && c.len() != 0 {
        if a[0] == b[0] && b[0] == c[0] {
            lemma_chars_lt_trans(a.skip(1), b.skip(1), c.skip(1));
        }
    }
}

/// Dropping an equal prefix does not change how two sequences compare.
pub proof fn lemma_chars_lt_common_prefix(a: Seq<char>, b: Seq<char>, i: int)
    requires
        0 <= i <= a.len(),
        i <= b.len(),
        forall|j: int| 0 <= j < i ==> a[j] == b[j],
    ensures
        chars_lt(a, b) == chars_lt(a.skip(i), b.skip(i)),
    decreases i,
{
    if i > 0 {
        assert(a.len() != 0 && b.len() != 0 && a[0] == b[0]);
        assert(forall|j: int| 0 <= j < i - 1 ==> #[trigger] a.skip(1)[j] == b.skip(1)[j]);
        lemma_chars_lt_common_prefix(a.skip(1), b.skip(1), i - 1);
        assert(a.skip(1).skip(i - 1) =~= a.skip(i));
        assert(b.skip(1).skip(i - 1) =~= b.skip(i));
    } else {
        assert(a.skip(0) =~= a);
        assert(b.skip(0) =~= b);
    }
}

/// Compares two strings in the lexicographic order.
pub fn str_lt(a: &str, b: &str) -> (r: bool)
    ensures
        r == chars_lt(a@, b@),
{
    let an = a.unicode_len();
    let bn = b.unicode_len();
    let mut i: usize = 0;
    while i < an && i < bn
        invariant
            i <= an,
            i <= bn,
            an == a@.len(),
            bn == b@.len(),
            forall|j: int| 0 <= j < i ==> a@[j] == b@[j],
        decreases an - i,
    {
        let ca = a.get_char(i);
        let cb = b.get_char(i);
        if ca != cb {
            proof {
                lemma_chars_lt_common_prefix(a@, b@, i as int);
            }
            return (ca as u32) < (cb as u32);
        }
        i += 1;
    }
    proof {
        lemma_chars_lt_common_prefix(a@, b@, i as int);
    }
    an < bn
}

/// Every pair of a sequence of names is in strictly ascending order.
pub open spec fn strictly_sorted(s: Seq<Seq<char>>) -> bool {
    forall|i: int, j: int| 0 <= i < j < s.len() ==> chars_lt(#[trigger] s[i], #[trigger] s[j])
}

/// Inserts a name that is not yet present into a strictly sorted listing,
/// keeping it strictly sorted.
pub fn insert_sorted(v: &mut Vec<String>, s: String)
    requires
        strictly_sorted(old(v).deep_view()),
        !old(v).deep_view().contains(s@),
    ensures
        strictly_sorted(final(v).deep_view()),
        forall|x: Seq<char>|
            final(v).deep_view().contains(x) <==> old(v).deep_view().contains(x) || x == s@,
{
    let mut i: usize = 0;
    while i < v.len() && str_lt(&v[i], &s)
        invariant
            i <= v.len(),
            forall|j: int| 0 <= j < i ==> chars_lt(#[trigger] v.deep_view()[j], s@),
            *v == *old(v),
        decreases v.len() - i,
    {
        i += 1;
    }
    proof {
        if i < v.len() {
            lemma_chars_lt_total(s@, v.deep_view()[i as int]);
            if v.deep_view()[i as int] == s@ {
                assert(v.deep_view().contains(s@));
            }
            assert(chars_lt(s@, v.deep_view()[i as int]));
        }
    }
    let ghost old_deep = v.deep_view();
    let ghost pos = i as int;
    v.insert(i, s);
    proof {
        let new_deep = v.deep_view();
        assert(v@ == old(v)@.insert(pos, s));
        old(v)@.insert_ensures(pos, s);
        assert(new_deep.len() == old_deep.len() + 1);
        assert(forall|k: int| 0 <= k < pos ==> #[trigger] new_deep[k] == old_deep[k]);
        assert(forall|k: int|
            pos < k < new_deep.len() ==> #[trigger] new_deep[k] == old_deep[k - 1]);
        assert(new_deep[pos] == s@);
        assert forall|p: int, q: int| 0 <= p < q < new_deep.len() implies chars_lt(
            #[trigger] new_deep[p],
            #[trigger] new_deep[q],
        ) by {
            if p == pos {
                if q == pos + 1 {
                    assert(new_deep[q] == old_deep[pos]);
                } else {
                    lemma_chars_lt_trans(s@, old_deep[pos], old_deep[q - 1]);
                }
            } else if q == pos {
                assert(chars_lt(old_deep[p], s@));
            } else if p < pos && q > pos {
                assert(new_deep[p] == old_deep[p] && new_deep[q] == old_deep[q - 1]);
            }
        }
        assert forall|x: Seq<char>| new_deep.contains(x) implies old_deep.contains(x) || x == s@ by {
            let k = choose|k: int| 0 <= k < new_deep.len() && new_deep[k] == x;
            if k < pos {
                assert(old_deep[k] == x);
            } else if k > pos {
                assert(old_deep[k - 1] == x);
            }
        }
        assert forall|x: Seq<char>| old_deep.contains(x) || x == s@ implies new_deep.contains(x) by {
            if x == s@ {
                assert(new_deep[pos] == x);
            } else {
                let k = choose|k: int| 0 <= k < old_deep.len() && old_deep[k] == x;
                if k < pos {
                    assert(new_deep[k] == x);
                } else {
                    assert(new_deep[k + 1] == x);
                }
            }
        }
    }
}

} // verus!
