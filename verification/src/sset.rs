//! Vectors of strings used as edge sets (duplicate-free, insertion order) and
//! as ordered id indexes, with idempotent insert and remove operations that
//! report whether the collection actually changed.

use vstd::prelude::*;
use crate::strings::str_eq;

verus! {

/// The sequence with the first occurrence of `x` removed, if any.
pub open spec fn seq_remove(s: Seq<Seq<char>>, x: Seq<char>) -> Seq<Seq<char>>
    decreases s.len(),
{
    if s.len() == 0 {
        s
    } else if s[0] == x {
        s.drop_first()
    } else {
        seq![s[0]] + seq_remove(s.drop_first(), x)
    }
}

/// Removing an element that is not there changes nothing.
pub proof fn lemma_seq_remove_absent(s: Seq<Seq<char>>, x: Seq<char>)
    requires
        !s.contains(x),
    ensures
        seq_remove(s, x) == s,
    decreases s.len(),
{
    if s.len() > 0 {
        assert(s[0] != x);
        assert(!s.drop_first().contains(x)) by {
            if s.drop_first().contains(x) {
                let i = choose|i: int| 0 <= i < s.drop_first().len() && s.drop_first()[i] == x;
                assert(s[i + 1] == x);
            }
        }
        lemma_seq_remove_absent(s.drop_first(), x);
        assert(seq_remove(s, x) =~= s);
    }
}

/// Removal at the first matching index is what `seq_remove` denotes.
pub proof fn lemma_seq_remove_at(s: Seq<Seq<char>>, x: Seq<char>, i: int)
    requires
        0 <= i < s.len(),
        s[i] == x,
        forall|k: int| 0 <= k < i ==> s[k] != x,
    ensures
        seq_remove(s, x) == s.remove(i),
    decreases s.len(),
{
    if i == 0 {
        assert(seq_remove(s, x) =~= s.remove(0));
    } else {
        assert(s[0] != x);
        assert(s.drop_first()[i - 1] == x);
        assert(forall|k: int| 0 <= k < i - 1 ==> s.drop_first()[k] == s[k + 1] && s[k + 1] != x);
        lemma_seq_remove_at(s.drop_first(), x, i - 1);
        assert(seq_remove(s, x) =~= s.remove(i));
    }
}

/// How membership changes under removal, given no duplicates.
pub proof fn lemma_seq_remove_contains(s: Seq<Seq<char>>, x: Seq<char>, y: Seq<char>)
    requires
        s.no_duplicates(),
    ensures
        seq_remove(s, x).contains(y) <==> (s.contains(y) && y != x),
    decreases s.len(),
{
    if s.len() > 0 {
        assert(s.drop_first().no_duplicates());
        if s[0] == x {
            assert(seq_remove(s, x) == s.drop_first());
            assert forall|z: Seq<char>| s.drop_first().contains(z) implies s.contains(z) && z != x by {
                let i = choose|i: int| 0 <= i < s.drop_first().len() && s.drop_first()[i] == z;
                assert(s[i + 1] == z);
            }
            if s.contains(y) && y != x {
                let i = choose|i: int| 0 <= i < s.len() && s[i] == y;
                assert(i != 0);
                assert(s.drop_first()[i - 1] == y);
            }
        } else {
            lemma_seq_remove_contains(s.drop_first(), x, y);
            assert(seq_remove(s, x) == seq![s[0]] + seq_remove(s.drop_first(), x));
            if seq_remove(s, x).contains(y) {
                let i = choose|i: int| 0 <= i < seq_remove(s, x).len() && seq_remove(s, x)[i] == y;
                if i == 0 {
                    assert(y == s[0]);
                    assert(s.contains(y));
                } else {
                    assert(seq_remove(s.drop_first(), x)[i - 1] == y);
                    assert(seq_remove(s.drop_first(), x).contains(y));
                    assert(s.drop_first().contains(y));
                    let j = choose|j: int| 0 <= j < s.drop_first().len() && s.drop_first()[j] == y;
                    assert(s[j + 1] == y);
                }
            }
            if s.contains(y) && y != x {
                let i = choose|i: int| 0 <= i < s.len() && s[i] == y;
                if i == 0 {
                    assert(seq_remove(s, x)[0] == y);
                } else {
                    assert(s.drop_first()[i - 1] == y);
                    assert(seq_remove(s.drop_first(), x).contains(y));
                    let j = choose|j: int|
                        0 <= j < seq_remove(s.drop_first(), x).len() && seq_remove(
                            s.drop_first(),
                            x,
                        )[j] == y;
                    assert(seq_remove(s, x)[j + 1] == y);
                }
            }
        }
    }
}

/// Removal keeps the no-duplicates property.
pub proof fn lemma_seq_remove_no_dup(s: Seq<Seq<char>>, x: Seq<char>)
    requires
        s.no_duplicates(),
    ensures
        seq_remove(s, x).no_duplicates(),
    decreases s.len(),
{
    if s.len() > 0 {
        assert(s.drop_first().no_duplicates()) by {
            assert forall|a: int, b: int| 0 <= a < b < s.drop_first().len() implies s.drop_first()[a]
                != s.drop_first()[b] by {
                assert(s.drop_first()[a] == s[a + 1]);
                assert(s.drop_first()[b] == s[b + 1]);
            }
        }
        if s[0] != x {
            lemma_seq_remove_no_dup(s.drop_first(), x);
            let rest = seq_remove(s.drop_first(), x);
            assert forall|a: int, b: int| 0 <= a < b < seq_remove(s, x).len() implies seq_remove(
                s,
                x,
            )[a] != seq_remove(s, x)[b] by {
                if a == 0 {
                    assert(seq_remove(s, x)[b] == rest[b - 1]);
                    assert(rest.contains(rest[b - 1]));
                    lemma_seq_remove_contains(s.drop_first(), x, rest[b - 1]);
                    let j = choose|j: int|
                        0 <= j < s.drop_first().len() && s.drop_first()[j] == rest[b - 1];
                    assert(s[j + 1] == rest[b - 1]);
                    assert(s[0] != s[j + 1]);
                } else {
                    assert(seq_remove(s, x)[a] == rest[a - 1]);
                    assert(seq_remove(s, x)[b] == rest[b - 1]);
                }
            }
        }
    }
}

/// Length change under removal.
pub proof fn lemma_seq_remove_len(s: Seq<Seq<char>>, x: Seq<char>)
    ensures
        s.contains(x) ==> seq_remove(s, x).len() == s.len() - 1,
        !s.contains(x) ==> seq_remove(s, x) == s,
    decreases s.len(),
{
    if s.len() > 0 && s.contains(x) {
        if s[0] == x {
        } else {
            assert(s.drop_first().contains(x)) by {
                let i = choose|i: int| 0 <= i < s.len() && s[i] == x;
                assert(i != 0);
                assert(s.drop_first()[i - 1] == x);
            }
            lemma_seq_remove_len(s.drop_first(), x);
        }
    } else {
        lemma_seq_remove_absent(s, x);
    }
}

/// Membership test against the character sequences held in the vector.
pub fn vec_contains_str(v: &Vec<String>, x: &String) -> (r: bool)
    ensures
        r == v.deep_view().contains(x@),
{
    let n = v.len();
    let mut i: usize = 0;
    while i < n
        invariant
            n == v@.len(),
            i <= n,
            forall|k: int| 0 <= k < i ==> v.deep_view()[k] != x@,
        decreases n - i,
    {
        if str_eq(&v[i], x) {
            proof {
                assert(v.deep_view()[i as int] == x@);
            }
            return true;
        }
        i = i + 1;
    }
    proof {
        if v.deep_view().contains(x@) {
            let k = choose|k: int| 0 <= k < v.deep_view().len() && v.deep_view()[k] == x@;
            assert(v.deep_view()[k] != x@);
        }
    }
    false
}

/// Idempotent insert: appends only when the element is not yet present, and
/// reports whether the collection changed.
pub fn vec_set_insert(v: &mut Vec<String>, x: &String) -> (added: bool)
    ensures
        added == !old(v).deep_view().contains(x@),
        added ==> final(v).deep_view() == old(v).deep_view().push(x@),
        !added ==> final(v).deep_view() == old(v).deep_view(),
        old(v).deep_view().no_duplicates() ==> final(v).deep_view().no_duplicates(),
        final(v).deep_view().contains(x@),
{
    if vec_contains_str(v, x) {
        false
    } else {
        v.push(x.clone());
        proof {
            assert(v.deep_view() =~= old(v).deep_view().push(x@));
            if old(v).deep_view().no_duplicates() {
                assert(v.deep_view().no_duplicates());
            }
            assert(v.deep_view()[v.deep_view().len() - 1] == x@);
        }
        true
    }
}

/// Idempotent remove: takes out the first occurrence, if any, and reports
/// whether the collection changed.
pub fn vec_set_remove(v: &mut Vec<String>, x: &String) -> (removed: bool)
    ensures
        removed == old(v).deep_view().contains(x@),
        final(v).deep_view() == seq_remove(old(v).deep_view(), x@),
{
    let n = v.len();
    let mut i: usize = 0;
    while i < n
        invariant
            n == v@.len(),
            i <= n,
            v == old(v),
            forall|k: int| 0 <= k < i ==> v.deep_view()[k] != x@,
        decreases n - i,
    {
        if str_eq(&v[i], x) {
            proof {
                assert(v.deep_view()[i as int] == x@);
                lemma_seq_remove_at(v.deep_view(), x@, i as int);
            }
            let _ = v.remove(i);
            proof {
                assert(v.deep_view() =~= old(v).deep_view().remove(i as int));
            }
            return true;
        }
        i = i + 1;
    }
    proof {
        if v.deep_view().contains(x@) {
            let k = choose|k: int| 0 <= k < v.deep_view().len() && v.deep_view()[k] == x@;
            assert(v.deep_view()[k] != x@);
        }
        lemma_seq_remove_absent(v.deep_view(), x@);
    }
    false
}

/// A copy of the vector with equal contents.
pub fn clone_str_vec(v: &Vec<String>) -> (r: Vec<String>)
    ensures
        r@ == v@,
{
    let n = v.len();
    let mut out: Vec<String> = Vec::new();
    let mut i: usize = 0;
    while i < n
        invariant
            n == v@.len(),
            i <= n,
            out@ == v@.take(i as int),
        decreases n - i,
    {
        out.push(v[i].clone());
        i = i + 1;
        proof {
            assert(out@ =~= v@.take(i as int));
        }
    }
    proof {
        assert(out@ =~= v@);
    }
    out
}

} // verus!
