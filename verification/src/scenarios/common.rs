//! Decisions that several suites make in the same way.
use crate::chain::Pubkey;
use vstd::prelude::*;
use vstd::seq_lib::group_to_multiset_ensures;

verus! {

/// What is known of a transaction.
#[derive(Clone, Copy, Debug, PartialEq, Eq, Structural)]
pub struct TxStatus {
    /// Whether it failed, and with which custom code if it failed with one.
    pub failed: Option<Option<u32>>,
    pub confirmed: bool,
}

/// How far a wait for a transaction has come.
#[derive(Clone, Copy, Debug, PartialEq, Eq, Structural)]
pub enum Watch {
    /// It was refused, with this custom code if it had one.
    Rejected(Option<u32>),
    /// It was taken.
    Confirmed,
    /// Time is up.
    TimedOut,
    /// Ask again.
    Waiting,
}

/// What a look at a transaction says: a failure counts first, then a
/// confirmation, and only then the deadline.
pub open spec fn watched(status: Option<TxStatus>, late: bool) -> Watch {
    match status {
        Some(TxStatus { failed: Some(code), .. }) => Watch::Rejected(code),
        Some(TxStatus { confirmed: true, .. }) => Watch::Confirmed,
        _ => if late {
            Watch::TimedOut
        } else {
            Watch::Waiting
        },
    }
}

/// Judges one look at a transaction.
pub fn watch(status: Option<TxStatus>, late: bool) -> (r: Watch)
    ensures
        r == watched(status, late),
{
    if let Some(found) = status {
        if let Some(code) = found.failed {
            return Watch::Rejected(code);
        }
        if found.confirmed {
            return Watch::Confirmed;
        }
    }
    if late {
        Watch::TimedOut
    } else {
        Watch::Waiting
    }
}

/// Whether two lists name the same accounts, each as often, in whatever
/// order.
pub fn same_accounts(one: &[Pubkey], other: &[Pubkey]) -> (r: bool)
    ensures
        r == (one@.to_multiset() == other@.to_multiset()),
{
    broadcast use {group_to_multiset_ensures, vstd::multiset::group_multiset_axioms};

    let mut left: Vec<Pubkey> = Vec::new();
    let mut k: usize = 0;
    while k < other.len()
        invariant
            k <= other@.len(),
            left@ == other@.take(k as int),
        decreases other@.len() - k,
    {
        left.push(other[k]);
        k = k + 1;
        assert(left@ =~= other@.take(k as int));
    }
    assert(other@.take(k as int) =~= other@);
    let mut i: usize = 0;
    assert(one@.take(0).to_multiset() =~= vstd::multiset::Multiset::<Pubkey>::empty()) by {
        assert(one@.take(0).len() == 0);
        assert(one@.take(0).to_multiset().len() == 0);
    }
    while i < one.len()
        invariant
            i <= one@.len(),
            one@.take(i as int).to_multiset().add(left@.to_multiset()) =~= other@.to_multiset(),
        decreases one@.len() - i,
    {
        let wanted = one[i];
        let mut j: usize = 0;
        while j < left.len() && !left[j].same(&wanted)
            invariant
                j <= left@.len(),
                forall|m: int| 0 <= m < j ==> left@[m] != wanted,
            decreases left@.len() - j,
        {
            j = j + 1;
        }
        let ghost before = one@.take(i as int);
        assert(one@.take(i as int + 1) =~= before.push(wanted));
        if j == left.len() {
            proof {
                broadcast use {group_to_multiset_ensures, vstd::multiset::group_multiset_axioms};

                assert(!left@.contains(wanted));
                assert(left@.to_multiset().count(wanted) == 0);
                lemma_prefix_count(one@, i as int + 1, wanted);
                assert(one@.take(i as int + 1).to_multiset().count(wanted)
                    == before.to_multiset().count(wanted) + 1);
                assert(other@.to_multiset().count(wanted) == before.to_multiset().count(wanted));
            }
            return false;
        }
        let ghost held = left@;
        left.remove(j);
        proof {
            broadcast use {group_to_multiset_ensures, vstd::multiset::group_multiset_axioms};

            assert(left@ =~= held.remove(j as int));
            assert(held.contains(wanted)) by {
                assert(held[j as int] == wanted);
            }
            assert(left@.to_multiset() == held.to_multiset().remove(wanted));
            assert(one@.take(i as int + 1).to_multiset().add(left@.to_multiset())
                =~= other@.to_multiset()) by {
                assert forall|x: Pubkey|
                    one@.take(i as int + 1).to_multiset().add(left@.to_multiset()).count(x)
                        == other@.to_multiset().count(x) by {
                    assert(before.to_multiset().add(held.to_multiset()).count(x)
                        == other@.to_multiset().count(x));
                }
            }
        }
        i = i + 1;
    }
    assert(one@.take(i as int) =~= one@);
    if left.len() == 0 {
        assert(left@.to_multiset().len() == 0);
        assert(one@.to_multiset().add(left@.to_multiset()) =~= one@.to_multiset());
        true
    } else {
        assert(one@.to_multiset().add(left@.to_multiset()).len() == one@.to_multiset().len()
            + left@.to_multiset().len());
        false
    }
}

/// A prefix holds an item at most as often as the whole.
proof fn lemma_prefix_count(s: Seq<Pubkey>, n: int, x: Pubkey)
    requires
        0 <= n <= s.len(),
    ensures
        s.take(n).to_multiset().count(x) <= s.to_multiset().count(x),
    decreases s.len() - n,
{
    broadcast use {group_to_multiset_ensures, vstd::multiset::group_multiset_axioms};

    if n < s.len() {
        lemma_prefix_count(s, n + 1, x);
        assert(s.take(n + 1) =~= s.take(n).push(s[n]));
    } else {
        assert(s.take(n) =~= s);
    }
}

/// The place of the first metric that is missing.
pub fn first_missing(present: &[bool]) -> (r: Option<usize>)
    ensures
        match r {
            None => forall|i: int| 0 <= i < present@.len() ==> present@[i],
            Some(at) => at < present@.len() && !present@[at as int] && forall|i: int|
                0 <= i < at ==> present@[i],
        },
{
    let mut i: usize = 0;
    while i < present.len()
        invariant
            i <= present@.len(),
            forall|j: int| 0 <= j < i ==> present@[j],
        decreases present@.len() - i,
    {
        if !present[i] {
            return Some(i);
        }
        i = i + 1;
    }
    None
}

/// A transaction with an error is rejected even where it is confirmed, and
/// with the code of the error. One that is neither times out where it is late
/// and is waited for where it is not.
pub proof fn an_error_outweighs_a_confirmation(status: Option<TxStatus>, late: bool)
    ensures
        watched(status, late) == Watch::Confirmed <==> (status matches Some(s) && s.failed is None
            && s.confirmed),
        status matches Some(s) ==> s.failed matches Some(code) ==> watched(status, late)
            == Watch::Rejected(code),
        watched(status, late) is Rejected <==> (status matches Some(s) && s.failed is Some),
        watched(status, late) == Watch::TimedOut ==> late,
        watched(status, late) == Watch::Waiting ==> !late,
{
}

} // verus!
