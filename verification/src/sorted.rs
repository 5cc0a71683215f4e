//! Sorted lists of distinct strings, ordered as `String`'s `Ord` orders them
//! (lexicographically by character code, which is the order of their UTF-8 bytes).
use vstd::prelude::*;

use crate::text::chars_of;

verus! {

/// `a` comes strictly before `b`.
pub open spec fn str_less(a: Seq<char>, b: Seq<char>) -> bool
    decreases a.len(),
{
    if a.len() == 0 {
        b.len() > 0
    } else if b.len() == 0 {
        false
    } else if a[0] < b[0] {
        true
    } else if a[0] == b[0] {
        str_less(a.skip(1), b.skip(1))
    } else {
        false
    }
}

/// Each element of `s` comes strictly before the next: sorted, with no element twice.
pub open spec fn strictly_sorted(s: Seq<Seq<char>>) -> bool {
    forall|i: int, j: int| 0 <= i < j < s.len() ==> str_less(s[i], s[j])
}

pub proof fn lemma_str_less_irreflexive(a: Seq<char>)
    ensures
        !str_less(a, a),
    decreases a.len(),
{
    if a.len() > 0 {
        lemma_str_less_irreflexive(a.skip(1));
    }
}

pub proof fn lemma_str_less_transitive(a: Seq<char>, b: Seq<char>, c: Seq<char>)
    requires
        str_less(a, b),
        str_less(b, c),
    ensures
        str_less(a, c),
    decreases a.len(),
{
    if a.len() > 0 && b.len() > 0 && c.len() > 0 && a[0] == b[0] && b[0] == c[0] {
        lemma_str_less_transitive(a.skip(1), b.skip(1), c.skip(1));
    }
}

pub proof fn lemma_str_less_total(a: Seq<char>, b: Seq<char>)
    ensures
        str_less(a, b) || a == b || str_less(b, a),
    decreases a.len(),
{
    if a.len() > 0 && b.len() > 0 && a[0] == b[0] {
        lemma_str_less_total(a.skip(1), b.skip(1));
        if a.skip(1) == b.skip(1) {
            assert(a =~= seq![a[0]] + a.skip(1));
            assert(b =~= seq![b[0]] + b.skip(1));
        }
    } else if a.len() > 0 && b.len() > 0 {
        assert(a[0] != b[0]);
    } else if a.len() == 0 && b.len() == 0 {
        assert(a =~= b);
    }
}

/// Whether `a` comes strictly before `b`.
pub fn less_chars(a: &[char], b: &[char]) -> (r: bool)
    ensures
        r == str_less(a@, b@),
    decreases a@.len(),
{
    if a.len() == 0 {
        return b.len() > 0;
    }
    if b.len() == 0 {
        return false;
    }
    if a[0] < b[0] {
        return true;
    }
    if a[0] != b[0] {
        return false;
    }
    let a1 = crate::text::sub_chars(a, 1, a.len());
    let b1 = crate::text::sub_chars(b, 1, b.len());
    assert(a1@ =~= a@.skip(1));
    assert(b1@ =~= b@.skip(1));
    less_chars(a1.as_slice(), b1.as_slice())
}

/// The views of a vector of strings.
pub open spec fn string_views(v: Seq<String>) -> Seq<Seq<char>> {
    v.map_values(|s: String| s@)
}

/// Inserts `s` into the strictly sorted `v` unless it is there already.
pub fn insert_sorted_unique(v: &mut Vec<String>, s: String)
    requires
        strictly_sorted(string_views(old(v)@)),
    ensures
        strictly_sorted(string_views(final(v)@)),
        string_views(final(v)@).to_set() == string_views(old(v)@).to_set().insert(s@),
{
    let ghost old_v = string_views(v@);
    let sc = chars_of(s.as_str());
    let n: usize = v.len();
    let mut k: usize = 0;
    while k < n && less_chars(chars_of(v[k].as_str()).as_slice(), sc.as_slice())
        invariant
            n == v@.len(),
            k <= n,
            old_v == string_views(v@),
            sc@ == s@,
            forall|t: int| 0 <= t < k ==> str_less(#[trigger] old_v[t], s@),
        decreases n - k,
    {
        assert(old_v[k as int] == v@[k as int]@);
        k = k + 1;
    }
    if k < n {
        assert(old_v[k as int] == v@[k as int]@);
        if crate::text::chars_eq(chars_of(v[k].as_str()).as_slice(), sc.as_slice()) {
            assert(old_v.to_set().insert(s@) =~= old_v.to_set());
            return;
        }
        proof {
            lemma_str_less_total(old_v[k as int], s@);
        }
    }
    v.insert(k, s);
    let ghost new_v = string_views(v@);
    assert(new_v =~= old_v.insert(k as int, s@));
    assert forall|i: int, j: int| 0 <= i < j < new_v.len() implies str_less(new_v[i], new_v[j]) by {
        if j < k {
        } else if j == k {
        } else if i < k {
            assert(new_v[j] == old_v[j - 1]);
            if j - 1 > k {
                lemma_str_less_transitive(new_v[i], s@, old_v[k as int]);
                lemma_str_less_transitive(new_v[i], old_v[k as int], old_v[j - 1]);
            } else {
                lemma_str_less_transitive(new_v[i], s@, old_v[k as int]);
            }
        } else if i == k {
            assert(new_v[j] == old_v[j - 1]);
            if j - 1 > k {
                lemma_str_less_transitive(s@, old_v[k as int], old_v[j - 1]);
            }
        } else {
            assert(new_v[i] == old_v[i - 1]);
            assert(new_v[j] == old_v[j - 1]);
        }
    }
    assert(new_v.to_set() =~= old_v.to_set().insert(s@)) by {
        assert forall|x: Seq<char>| new_v.to_set().contains(x) == old_v.to_set().insert(s@).contains(x) by {
            if new_v.to_set().contains(x) {
                let i = choose|i: int| 0 <= i < new_v.len() && new_v[i] == x;
                if i < k {
                    assert(old_v[i] == x);
                } else if i > k {
                    assert(old_v[i - 1] == x);
                }
            }
            if old_v.to_set().contains(x) {
                let i = choose|i: int| 0 <= i < old_v.len() && old_v[i] == x;
                if i < k {
                    assert(new_v[i] == x);
                } else {
                    assert(new_v[i + 1] == x);
                }
            }
            if x == s@ {
                assert(new_v[k as int] == x);
            }
        }
    }
}

} // verus!
