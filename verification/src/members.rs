//! Member lists: strictly increasing sequences of account identifiers.

use vstd::prelude::*;
use crate::types::AccountId;

verus! {

/// Each element is smaller than every later one, so nothing occurs twice.
pub open spec fn strictly_sorted(s: Seq<AccountId>) -> bool {
    forall|i: int, j: int| 0 <= i < j < s.len() ==> s[i] < s[j]
}

/// How many elements of `s` are smaller than `account`. In a sorted list this
/// is the position of `account`, or the position at which it belongs.
pub open spec fn rank(s: Seq<AccountId>, account: AccountId) -> int
    decreases s.len(),
{
    if s.len() == 0 {
        0
    } else {
        rank(s.drop_last(), account) + if s.last() < account { 1int } else { 0int }
    }
}

/// `s` with `account` put at the place that keeps the list sorted.
pub open spec fn inserted(s: Seq<AccountId>, account: AccountId) -> Seq<AccountId> {
    s.insert(rank(s, account), account)
}

/// `s` without the element at the place where `account` stands.
pub open spec fn removed(s: Seq<AccountId>, account: AccountId) -> Seq<AccountId> {
    s.remove(rank(s, account))
}

/// A position that has only smaller elements before it and none after it is
/// the rank.
pub proof fn lemma_rank_is_split(s: Seq<AccountId>, account: AccountId, at: int)
    requires
        0 <= at <= s.len(),
        forall|j: int| 0 <= j < at ==> s[j] < account,
        forall|j: int| at <= j < s.len() ==> s[j] >= account,
    ensures
        rank(s, account) == at,
    decreases s.len(),
{
    if s.len() > 0 {
        let front = s.drop_last();
        if at == s.len() {
            lemma_rank_is_split(front, account, at - 1);
        } else {
            lemma_rank_is_split(front, account, at);
        }
    }
}

/// In a sorted list the rank splits the smaller elements from the others.
pub proof fn lemma_rank_splits(s: Seq<AccountId>, account: AccountId)
    requires
        strictly_sorted(s),
    ensures
        0 <= rank(s, account) <= s.len(),
        forall|j: int| 0 <= j < rank(s, account) ==> s[j] < account,
        forall|j: int| rank(s, account) <= j < s.len() ==> s[j] >= account,
        s.contains(account) <==> (rank(s, account) < s.len() && s[rank(s, account)] == account),
    decreases s.len(),
{
    if s.len() > 0 {
        let front = s.drop_last();
        assert(strictly_sorted(front)) by {
            assert forall|i: int, j: int| 0 <= i < j < front.len() implies front[i] < front[j] by {
                assert(s[i] < s[j]);
            }
        }
        lemma_rank_splits(front, account);
        let r = rank(front, account);
        let q = rank(s, account);
        if s.last() < account {
            if r < front.len() {
                assert(front[r] >= account);
                assert(s[r] < s[s.len() - 1]);
            }
        }
        assert forall|j: int| 0 <= j < q implies s[j] < account by {
            if j < front.len() {
                assert(front[j] == s[j]);
            }
        }
        assert forall|j: int| q <= j < s.len() implies s[j] >= account by {
            if j < front.len() {
                assert(front[j] == s[j]);
            }
        }
        if s.contains(account) {
            let k = choose|k: int| 0 <= k < s.len() && s[k] == account;
            if k > q {
                assert(s[q] < s[k]);
            }
        }
    }
}

/// Putting a new account into a sorted list keeps it sorted and adds exactly
/// that account.
pub proof fn lemma_inserted(s: Seq<AccountId>, account: AccountId)
    requires
        strictly_sorted(s),
        !s.contains(account),
    ensures
        strictly_sorted(inserted(s, account)),
        inserted(s, account).len() == s.len() + 1,
        inserted(s, account).to_set() == s.to_set().insert(account),
{
    lemma_rank_splits(s, account);
    let at = rank(s, account);
    let t = inserted(s, account);
    assert forall|j: int| at <= j < s.len() implies s[j] > account by {
        assert(s.contains(s[j]));
    }
    assert forall|i: int, j: int| 0 <= i < j < t.len() implies t[i] < t[j] by {
        if i < at && j > at {
            assert(s[i] < account);
            assert(s[j - 1] > account);
        } else if i > at {
            assert(s[i - 1] < s[j - 1]);
        } else if j < at {
            assert(s[i] < s[j]);
        }
    }
    assert forall|x: AccountId| t.to_set().contains(x) <==> s.to_set().insert(account).contains(
        x,
    ) by {
        if t.contains(x) {
            let k = choose|k: int| 0 <= k < t.len() && t[k] == x;
            if k < at {
                assert(s[k] == x);
            } else if k > at {
                assert(s[k - 1] == x);
            }
        }
        if x == account {
            assert(t[at] == x);
        } else if s.contains(x) {
            let k = choose|k: int| 0 <= k < s.len() && s[k] == x;
            if k < at {
                assert(t[k] == x);
            } else {
                assert(t[k + 1] == x);
            }
        }
    }
    assert(t.to_set() =~= s.to_set().insert(account));
}

/// Taking a member out of a sorted list keeps it sorted and drops exactly
/// that account.
pub proof fn lemma_removed(s: Seq<AccountId>, account: AccountId)
    requires
        strictly_sorted(s),
        s.contains(account),
    ensures
        strictly_sorted(removed(s, account)),
        removed(s, account).len() == s.len() - 1,
        removed(s, account).to_set() == s.to_set().remove(account),
{
    lemma_rank_splits(s, account);
    let at = rank(s, account);
    let t = removed(s, account);
    assert forall|i: int, j: int| 0 <= i < j < t.len() implies t[i] < t[j] by {
        let from_i = if i < at { i } else { i + 1 };
        let from_j = if j < at { j } else { j + 1 };
        assert(s[from_i] < s[from_j]);
    }
    assert forall|x: AccountId| t.to_set().contains(x) <==> s.to_set().remove(account).contains(
        x,
    ) by {
        if t.contains(x) {
            let k = choose|k: int| 0 <= k < t.len() && t[k] == x;
            let from = if k < at { k } else { k + 1 };
            assert(s[from] == x);
            if from < at {
                assert(s[from] < s[at]);
            } else {
                assert(s[at] < s[from]);
            }
        }
        if x != account && s.contains(x) {
            let k = choose|k: int| 0 <= k < s.len() && s[k] == x;
            if k < at {
                assert(t[k] == x);
            } else {
                assert(t[k - 1] == x);
            }
        }
    }
    assert(t.to_set() =~= s.to_set().remove(account));
}

/// Looks `account` up in a sorted list by halving the range that may hold it.
/// `Ok` carries its position, `Err` the position at which it belongs.
pub fn binary_search(list: &Vec<AccountId>, account: AccountId) -> (found: Result<usize, usize>)
    requires
        strictly_sorted(list@),
    ensures
        match found {
            Ok(at) => list@.contains(account) && at == rank(list@, account) && at < list.len()
                && list[at as int] == account,
            Err(at) => !list@.contains(account) && at == rank(list@, account) && at <= list.len(),
        },
{
    let mut low: usize = 0;
    let mut high: usize = list.len();
    while low < high
        invariant
            0 <= low <= high <= list.len(),
            strictly_sorted(list@),
            forall|j: int| 0 <= j < low ==> list[j] < account,
            forall|j: int| high <= j < list.len() ==> list[j] > account,
        decreases high - low,
    {
        let mid: usize = low + (high - low) / 2;
        let probe: AccountId = list[mid];
        if probe == account {
            proof {
                assert forall|j: int| 0 <= j < mid implies list[j] < account by {
                    assert(list[j] < list[mid as int]);
                }
                assert forall|j: int| mid <= j < list.len() implies list[j] >= account by {
                    if j > mid {
                        assert(list[mid as int] < list[j]);
                    }
                }
                lemma_rank_is_split(list@, account, mid as int);
            }
            return Ok(mid);
        } else if probe < account {
            proof {
                assert forall|j: int| 0 <= j < mid + 1 implies list[j] < account by {
                    if j < mid {
                        assert(list[j] < list[mid as int]);
                    }
                }
            }
            low = mid + 1;
        } else {
            proof {
                assert forall|j: int| mid <= j < list.len() implies list[j] > account by {
                    if j > mid {
                        assert(list[mid as int] < list[j]);
                    }
                }
            }
            high = mid;
        }
    }
    proof {
        lemma_rank_is_split(list@, account, low as int);
        assert(!list@.contains(account)) by {
            if list@.contains(account) {
                let k = choose|k: int| 0 <= k < list.len() && list[k] == account;
                if k < low {
                    assert(list[k] < account);
                } else {
                    assert(list[k] > account);
                }
            }
        }
    }
    Err(low)
}

} // verus!
