//! Next-token selection.

use vstd::prelude::*;

verus! {

/// The first index `k` from `start` on with `blocked[k]` false.
pub open spec fn first_free_from(blocked: Seq<bool>, start: int) -> Option<int>
    decreases blocked.len() - start,
{
    if start < 0 || start >= blocked.len() {
        None
    } else if !blocked[start] {
        Some(start)
    } else {
        first_free_from(blocked, start + 1)
    }
}

pub open spec fn first_free(blocked: Seq<bool>) -> Option<int> {
    first_free_from(blocked, 0)
}

proof fn lemma_first_free_from(blocked: Seq<bool>, start: int)
    requires
        0 <= start,
    ensures
        first_free_from(blocked, start) matches Some(k) ==>
            start <= k < blocked.len() && !blocked[k] && forall|j: int| start <= j < k ==> blocked[j],
        first_free_from(blocked, start) is None ==> forall|j: int| start <= j < blocked.len() ==> blocked[j],
    decreases blocked.len() - start,
{
    if start < blocked.len() && blocked[start] {
        lemma_first_free_from(blocked, start + 1);
    }
}

/// Takes the next token off the front of `token_list`: tokens whose cell a
/// piece covers (`blocked[i]` for `token_list[i]`) go to the back in turn,
/// and the first free one is taken. With `k` the first free index, the list
/// becomes `token_list[k + 1..]` followed by `token_list[..k]`.
pub fn next_token<T>(token_list: &mut Vec<T>, blocked: &Vec<bool>) -> (token: Option<T>)
    requires
        blocked@.len() == old(token_list)@.len(),
        first_free(blocked@) is Some,
    ensures
        ({
            let k = first_free(blocked@)->0;
            &&& token == Some(old(token_list)@[k])
            &&& final(token_list)@ == old(token_list)@.subrange(k + 1, old(token_list)@.len() as int)
                + old(token_list)@.subrange(0, k)
        }),
        // the taken token's cell is free, every token before it is covered, and no token is lost or added
        0 <= first_free(blocked@)->0 < blocked@.len(),
        !blocked@[first_free(blocked@)->0],
        forall|j: int| 0 <= j < first_free(blocked@)->0 ==> blocked@[j],
        token matches Some(t) && final(token_list)@.to_multiset().insert(t) == old(token_list)@.to_multiset(),
{
    let ghost start_list = token_list@;
    let ghost k = first_free(blocked@)->0;
    proof {
        lemma_first_free_from(blocked@, 0);
    }
    let mut i: usize = 0;
    assert(k < token_list.len());
    loop
        invariant
            start_list == old(token_list)@,
            k == first_free(blocked@)->0,
            start_list.len() == blocked@.len(),
            0 <= k < start_list.len(),
            !blocked@[k],
            forall|j: int| 0 <= j < k ==> blocked@[j],
            i <= k,
            k < usize::MAX,
            token_list@ == start_list.subrange(i as int, start_list.len() as int) + start_list.subrange(0, i as int),
        decreases k - i,
    {
        let ghost before = token_list@;
        let token_from_front = token_list.remove(0);
        proof {
            assert(before[0] == start_list[i as int]);
        }
        if !blocked[i] {
            proof {
                assert(i == k);
                assert(token_list@ =~= start_list.subrange(k + 1, start_list.len() as int) + start_list.subrange(0, k));
                let a = start_list.subrange(0, k);
                let b = start_list.subrange(k + 1, start_list.len() as int);
                assert(start_list =~= a + (seq![start_list[k]] + b));
                vstd::seq_lib::lemma_multiset_commutative(a, seq![start_list[k]] + b);
                vstd::seq_lib::lemma_multiset_commutative(seq![start_list[k]], b);
                vstd::seq_lib::lemma_multiset_commutative(b, a);
                assert(seq![start_list[k]].to_multiset() =~= vstd::multiset::Multiset::empty().insert(start_list[k])) by {
                    broadcast use vstd::seq_lib::group_to_multiset_ensures;
                    assert(seq![start_list[k]] =~= Seq::<T>::empty().push(start_list[k]));
                }
                assert(token_list@.to_multiset().insert(start_list[k]) =~= start_list.to_multiset());
            }
            return Some(token_from_front);
        }
        token_list.push(token_from_front);
        proof {
            assert(i < k);
            assert(token_list@ =~= start_list.subrange(i + 1, start_list.len() as int) + start_list.subrange(0, i + 1));
        }
        i = i + 1;
    }
}

} // verus!
