//! Merge sort under a caller-supplied "sorts strictly before" relation.
use vstd::multiset::Multiset;
use vstd::prelude::*;

verus! {

broadcast use vstd::seq_lib::group_to_multiset_ensures;

/// `lt` is a strict weak order: never both ways, and "not after" chains.
pub open spec fn weak_order<T>(lt: spec_fn(T, T) -> bool) -> bool {
    &&& forall|a: T, b: T| #[trigger] lt(a, b) ==> !lt(b, a)
    &&& forall|a: T, b: T, c: T|
        #![trigger lt(b, a), lt(c, b)]
        !lt(b, a) && !lt(c, b) ==> !lt(c, a)
}

/// No element of `s` sorts strictly before an earlier one.
pub open spec fn sorted_under<T>(s: Seq<T>, lt: spec_fn(T, T) -> bool) -> bool {
    forall|i: int, j: int| 0 <= i < j < s.len() ==> !lt(#[trigger] s[j], #[trigger] s[i])
}

/// Multiset of a sequence with its last element dropped.
proof fn lemma_drop_last_multiset<T>(s: Seq<T>)
    requires
        s.len() > 0,
    ensures
        s.to_multiset() == s.drop_last().to_multiset().insert(s.last()),
{
    assert(s.drop_last().push(s.last()) =~= s);
    vstd::seq_lib::to_multiset_build(s.drop_last(), s.last());
}

/// The elements of `left` and `right` merged into one sorted vector.
fn merge<T, F: Fn(&T, &T) -> bool>(
    left: Vec<T>,
    right: Vec<T>,
    before: &F,
    Ghost(lt): Ghost<spec_fn(T, T) -> bool>,
) -> (r: Vec<T>)
    requires
        weak_order(lt),
        forall|a: &T, b: &T| #[trigger] before.requires((a, b)),
        forall|a: &T, b: &T, x: bool| before.ensures((a, b), x) ==> x == lt(*a, *b),
        sorted_under(left@, lt),
        sorted_under(right@, lt),
    ensures
        sorted_under(r@, lt),
        r@.to_multiset() == left@.to_multiset().add(right@.to_multiset()),
{
    let ghost total = left@.to_multiset().add(right@.to_multiset());
    let mut left = left;
    let mut right = right;
    // Largest first: `out` is sorted the other way round.
    let mut out: Vec<T> = Vec::new();
    while left.len() > 0 || right.len() > 0
        invariant
            weak_order(lt),
            forall|a: &T, b: &T| #[trigger] before.requires((a, b)),
            forall|a: &T, b: &T, x: bool| before.ensures((a, b), x) ==> x == lt(*a, *b),
            sorted_under(left@, lt),
            sorted_under(right@, lt),
            forall|i: int, j: int| 0 <= i < j < out@.len() ==> !lt(#[trigger] out@[i], #[trigger] out@[j]),
            out@.len() > 0 ==> forall|k: int| 0 <= k < left@.len() ==> !lt(out@.last(), #[trigger] left@[k]),
            out@.len() > 0 ==> forall|k: int| 0 <= k < right@.len() ==> !lt(out@.last(), #[trigger] right@[k]),
            out@.to_multiset().add(left@.to_multiset()).add(right@.to_multiset()) == total,
        decreases left@.len() + right@.len(),
    {
        let ghost old_out = out@;
        let ghost old_left = left@;
        let ghost old_right = right@;
        let take_right = if left.len() == 0 {
            true
        } else if right.len() == 0 {
            false
        } else {
            before(&left[left.len() - 1], &right[right.len() - 1])
        };
        if take_right {
            let x = right.pop().unwrap();
            proof {
                lemma_drop_last_multiset(old_right);
                assert forall|k: int| 0 <= k < left@.len() implies !lt(x, #[trigger] left@[k]) by {
                    let l = old_left.last();
                    assert(lt(l, x));
                    if k < old_left.len() - 1 {
                        assert(!lt(l, old_left[k]));
                    }
                    assert(!lt(l, old_left[k]));
                }
                assert forall|k: int| 0 <= k < right@.len() implies !lt(x, #[trigger] right@[k]) by {
                    assert(!lt(old_right[old_right.len() - 1], old_right[k]));
                }
            }
            out.push(x);
            proof {
                assert forall|i: int, j: int| 0 <= i < j < out@.len() implies !lt(
                    #[trigger] out@[i],
                    #[trigger] out@[j],
                ) by {
                    if j == out@.len() - 1 {
                        if i < j - 1 {
                            assert(!lt(old_out[i], old_out.last()));
                        }
                        assert(!lt(old_out.last(), x) || old_out.len() == 0);
                    } else {
                        assert(out@[i] == old_out[i]);
                        assert(out@[j] == old_out[j]);
                    }
                }
                vstd::seq_lib::to_multiset_build(old_out, x);
                assert(out@.to_multiset().add(left@.to_multiset()).add(right@.to_multiset()) =~= total);
            }
        } else {
            let x = left.pop().unwrap();
            proof {
                lemma_drop_last_multiset(old_left);
                assert forall|k: int| 0 <= k < right@.len() implies !lt(x, #[trigger] right@[k]) by {
                    let r = old_right.last();
                    assert(!lt(x, r));
                    assert(!lt(r, old_right[k]));
                }
                assert forall|k: int| 0 <= k < left@.len() implies !lt(x, #[trigger] left@[k]) by {
                    assert(!lt(old_left[old_left.len() - 1], old_left[k]));
                }
            }
            out.push(x);
            proof {
                assert forall|i: int, j: int| 0 <= i < j < out@.len() implies !lt(
                    #[trigger] out@[i],
                    #[trigger] out@[j],
                ) by {
                    if j == out@.len() - 1 {
                        if i < j - 1 {
                            assert(!lt(old_out[i], old_out.last()));
                        }
                        assert(!lt(old_out.last(), x) || old_out.len() == 0);
                    } else {
                        assert(out@[i] == old_out[i]);
                        assert(out@[j] == old_out[j]);
                    }
                }
                vstd::seq_lib::to_multiset_build(old_out, x);
                assert(out@.to_multiset().add(left@.to_multiset()).add(right@.to_multiset()) =~= total);
            }
        }
    }
    assert(left@.to_multiset() =~= Multiset::empty());
    assert(right@.to_multiset() =~= Multiset::empty());
    reversed(out, Ghost(lt))
}

/// `v` in reverse order, for a `v` sorted the other way round.
fn reversed<T>(v: Vec<T>, Ghost(lt): Ghost<spec_fn(T, T) -> bool>) -> (r: Vec<T>)
    requires
        forall|i: int, j: int| 0 <= i < j < v@.len() ==> !lt(#[trigger] v@[i], #[trigger] v@[j]),
    ensures
        sorted_under(r@, lt),
        r@.to_multiset() == v@.to_multiset(),
{
    let ghost all = v@;
    let mut v = v;
    let mut r: Vec<T> = Vec::new();
    while v.len() > 0
        invariant
            all.len() == v@.len() + r@.len(),
            v@ == all.take(v@.len() as int),
            forall|k: int| 0 <= k < r@.len() ==> #[trigger] r@[k] == all[all.len() - 1 - k],
            r@.to_multiset().add(v@.to_multiset()) == all.to_multiset(),
        decreases v@.len(),
    {
        let ghost old_v = v@;
        let ghost old_r = r@;
        let x = v.pop().unwrap();
        proof {
            lemma_drop_last_multiset(old_v);
            vstd::seq_lib::to_multiset_build(old_r, x);
            assert(all.take(v@.len() as int) =~= old_v.drop_last());
        }
        r.push(x);
        proof {
            assert(r@.to_multiset().add(v@.to_multiset()) =~= all.to_multiset());
        }
    }
    assert(v@.to_multiset() =~= Multiset::empty());
    assert(r@.to_multiset() =~= all.to_multiset());
    assert forall|i: int, j: int| 0 <= i < j < r@.len() implies !lt(#[trigger] r@[j], #[trigger] r@[i]) by {
        assert(r@[j] == all[all.len() - 1 - j]);
        assert(r@[i] == all[all.len() - 1 - i]);
    }
    r
}

/// The elements of `v`, sorted under `lt` by the matching test `before`.
pub fn merge_sort<T, F: Fn(&T, &T) -> bool>(
    v: Vec<T>,
    before: &F,
    Ghost(lt): Ghost<spec_fn(T, T) -> bool>,
) -> (r: Vec<T>)
    requires
        weak_order(lt),
        forall|a: &T, b: &T| #[trigger] before.requires((a, b)),
        forall|a: &T, b: &T, x: bool| before.ensures((a, b), x) ==> x == lt(*a, *b),
    ensures
        sorted_under(r@, lt),
        r@.to_multiset() == v@.to_multiset(),
    decreases v@.len(),
{
    if v.len() <= 1 {
        return v;
    }
    let ghost all = v@;
    let mut left = v;
    let mid = left.len() / 2;
    let right = left.split_off(mid);
    proof {
        assert(all =~= left@ + right@);
        vstd::seq_lib::lemma_multiset_commutative(left@, right@);
    }
    let left = merge_sort(left, before, Ghost(lt));
    let right = merge_sort(right, before, Ghost(lt));
    merge(left, right, before, Ghost(lt))
}

} // verus!

verus! {

/// Inserting `x` into a sorted sequence, after every element it does not
/// sort strictly before, keeps it sorted.
proof fn lemma_sorted_insert<T>(s: Seq<T>, x: T, lt: spec_fn(T, T) -> bool) -> (r: Seq<T>)
    requires
        weak_order(lt),
        sorted_under(s, lt),
    ensures
        sorted_under(r, lt),
        r.to_multiset() == s.to_multiset().insert(x),
    decreases s.len(),
{
    if s.len() == 0 || !lt(x, s.last()) {
        let r = s.push(x);
        vstd::seq_lib::to_multiset_build(s, x);
        assert forall|i: int, j: int| 0 <= i < j < r.len() implies !lt(#[trigger] r[j], #[trigger] r[i]) by {
            if j == r.len() - 1 && i < j {
                if i < s.len() - 1 {
                    assert(!lt(s.last(), s[i]));
                }
            }
        }
        r
    } else {
        let s0 = s.drop_last();
        let y = s.last();
        assert(sorted_under(s0, lt)) by {
            assert forall|i: int, j: int| 0 <= i < j < s0.len() implies !lt(#[trigger] s0[j], #[trigger] s0[i]) by {
                assert(s0[j] == s[j] && s0[i] == s[i]);
            }
        }
        let r0 = lemma_sorted_insert(s0, x, lt);
        let r = r0.push(y);
        // every element of r0 is x or an element of s0, and neither sorts after y
        assert forall|k: int| 0 <= k < r0.len() implies !lt(y, #[trigger] r0[k]) by {
            assert(r0.to_multiset().count(r0[k]) > 0) by {
                assert(r0.contains(r0[k]));
            }
            if r0[k] != x {
                assert(s0.to_multiset().count(r0[k]) > 0);
                assert(s0.contains(r0[k]));
                let m = choose|m: int| 0 <= m < s0.len() && s0[m] == r0[k];
                assert(!lt(s[s.len() - 1], s[m]));
            } else {
                assert(lt(x, y));
            }
        }
        assert forall|i: int, j: int| 0 <= i < j < r.len() implies !lt(#[trigger] r[j], #[trigger] r[i]) by {
            if j == r.len() - 1 {
                assert(!lt(y, r0[i]));
            } else {
                assert(r[j] == r0[j] && r[i] == r0[i]);
            }
        }
        vstd::seq_lib::to_multiset_build(r0, y);
        assert(s0.push(y) =~= s);
        vstd::seq_lib::to_multiset_build(s0, y);
        assert(r.to_multiset() =~= s.to_multiset().insert(x));
        r
    }
}

/// Every sequence has a sorted rearrangement.
pub proof fn lemma_sorted_exists<T>(s: Seq<T>, lt: spec_fn(T, T) -> bool)
    requires
        weak_order(lt),
    ensures
        exists|r: Seq<T>| sorted_under(r, lt) && r.to_multiset() == s.to_multiset(),
    decreases s.len(),
{
    if s.len() == 0 {
        assert(sorted_under(s, lt) && s.to_multiset() == s.to_multiset());
    } else {
        lemma_sorted_exists(s.drop_last(), lt);
        let r0 = choose|r: Seq<T>| sorted_under(r, lt) && r.to_multiset() == s.drop_last().to_multiset();
        let r = lemma_sorted_insert(r0, s.last(), lt);
        assert(s.drop_last().push(s.last()) =~= s);
        vstd::seq_lib::to_multiset_build(s.drop_last(), s.last());
        assert(sorted_under(r, lt) && r.to_multiset() == s.to_multiset());
    }
}

/// Two sorted rearrangements of the same elements are the same sequence,
/// when any two different elements compare one way or the other.
pub proof fn lemma_sorted_unique<T>(s: Seq<T>, t: Seq<T>, lt: spec_fn(T, T) -> bool)
    requires
        sorted_under(s, lt),
        sorted_under(t, lt),
        s.to_multiset() == t.to_multiset(),
        forall|a: T, b: T| s.contains(a) && s.contains(b) && a != b ==> lt(a, b) || lt(b, a),
    ensures
        s == t,
    decreases s.len(),
{
    assert(s.len() == s.to_multiset().len());
    assert(t.len() == t.to_multiset().len());
    if s.len() > 0 {
        let n = s.len() - 1;
        let x = s.last();
        let y = t.last();
        assert(t.contains(y));
        assert(t.to_multiset().count(y) > 0);
        assert(s.contains(y));
        assert(s.contains(x));
        assert(s.to_multiset().count(x) > 0);
        assert(t.contains(x));
        if x != y {
            let i = choose|i: int| 0 <= i < s.len() && s[i] == y;
            let j = choose|j: int| 0 <= j < t.len() && t[j] == x;
            assert(i != n);
            assert(j != n);
            assert(!lt(s[n], s[i]));
            assert(!lt(t[n], t[j]));
            assert(false);
        }
        lemma_drop_last_multiset(s);
        lemma_drop_last_multiset(t);
        let s0 = s.drop_last();
        let t0 = t.drop_last();
        assert(s0.to_multiset() =~= t0.to_multiset()) by {
            assert forall|a: T| s0.to_multiset().count(a) == t0.to_multiset().count(a) by {
                assert(s0.to_multiset().insert(x).count(a) == t0.to_multiset().insert(x).count(a));
            }
        }
        assert forall|a: T, b: T| s0.contains(a) && s0.contains(b) && a != b implies lt(a, b) || lt(b, a) by {
            let ia = choose|ia: int| 0 <= ia < s0.len() && s0[ia] == a;
            let ib = choose|ib: int| 0 <= ib < s0.len() && s0[ib] == b;
            assert(s[ia] == a);
            assert(s[ib] == b);
            assert(s.contains(a));
            assert(s.contains(b));
        }
        assert(sorted_under(s0, lt)) by {
            assert forall|i: int, j: int| 0 <= i < j < s0.len() implies !lt(#[trigger] s0[j], #[trigger] s0[i]) by {
                assert(s0[i] == s[i] && s0[j] == s[j]);
            }
        }
        assert(sorted_under(t0, lt)) by {
            assert forall|i: int, j: int| 0 <= i < j < t0.len() implies !lt(#[trigger] t0[j], #[trigger] t0[i]) by {
                assert(t0[i] == t[i] && t0[j] == t[j]);
            }
        }
        lemma_sorted_unique(s0, t0, lt);
        assert(s =~= s0.push(x));
        assert(t =~= t0.push(y));
    } else {
        assert(s =~= t);
    }
}

} // verus!
