use vstd::prelude::*;

use crate::account::{AccountId, Balance};
use crate::ledger::amount_in;

verus! {

/// `bal` after the first `n` entries of a basket are added to (`up`) or taken
/// from (`!up`) the balance of their token, one after the other.
pub open spec fn shifted(
    bal: Map<AccountId, Balance>,
    tokens: Seq<AccountId>,
    amounts: Seq<Balance>,
    n: nat,
    up: bool,
) -> Map<AccountId, Balance>
    decreases n,
{
    if n == 0 {
        bal
    } else {
        let prev = shifted(bal, tokens, amounts, (n - 1) as nat, up);
        let t = tokens[n - 1];
        let cur = amount_in(prev, t);
        prev.insert(
            t,
            if up {
                (cur + amounts[n - 1]) as Balance
            } else {
                (cur - amounts[n - 1]) as Balance
            },
        )
    }
}

/// Every step of `shifted` stays within the range of a `Balance`.
pub open spec fn shift_fits(
    bal: Map<AccountId, Balance>,
    tokens: Seq<AccountId>,
    amounts: Seq<Balance>,
    n: nat,
    up: bool,
) -> bool
    decreases n,
{
    if n == 0 {
        true
    } else {
        let prev = shifted(bal, tokens, amounts, (n - 1) as nat, up);
        let cur = amount_in(prev, tokens[n - 1]);
        &&& shift_fits(bal, tokens, amounts, (n - 1) as nat, up)
        &&& if up {
            cur + amounts[n - 1] <= Balance::MAX
        } else {
            cur >= amounts[n - 1]
        }
    }
}

/// The total that the first `n` entries of a basket require of token `k`.
pub open spec fn basket_sum(tokens: Seq<AccountId>, amounts: Seq<Balance>, k: AccountId, n: nat) -> int
    decreases n,
{
    if n == 0 {
        0
    } else {
        basket_sum(tokens, amounts, k, (n - 1) as nat) + if tokens[n - 1] == k {
            amounts[n - 1] as int
        } else {
            0
        }
    }
}

/// Where every step fits, shifting by a basket moves each balance by exactly
/// what the basket requires of that token.
pub proof fn lemma_shifted_amounts(
    bal: Map<AccountId, Balance>,
    tokens: Seq<AccountId>,
    amounts: Seq<Balance>,
    n: nat,
    up: bool,
)
    requires
        n <= tokens.len(),
        n <= amounts.len(),
        shift_fits(bal, tokens, amounts, n, up),
    ensures
        forall|k: AccountId|
            #[trigger] amount_in(shifted(bal, tokens, amounts, n, up), k) == amount_in(bal, k) + if up {
                basket_sum(tokens, amounts, k, n)
            } else {
                -basket_sum(tokens, amounts, k, n)
            },
    decreases n,
{
    if n > 0 {
        let m = (n - 1) as nat;
        lemma_shifted_amounts(bal, tokens, amounts, m, up);
        assert forall|k: AccountId| #[trigger]
            amount_in(shifted(bal, tokens, amounts, n, up), k) == amount_in(bal, k) + if up {
                basket_sum(tokens, amounts, k, n)
            } else {
                -basket_sum(tokens, amounts, k, n)
            } by {
            assert(amount_in(shifted(bal, tokens, amounts, m, up), k) == amount_in(bal, k) + if up {
                basket_sum(tokens, amounts, k, m)
            } else {
                -basket_sum(tokens, amounts, k, m)
            });
        }
    }
}

/// What a basket's prefix requires of a token grows with the prefix.
proof fn lemma_sum_mono(tokens: Seq<AccountId>, amounts: Seq<Balance>, k: AccountId, j: nat, n: nat)
    requires
        j <= n,
    ensures
        basket_sum(tokens, amounts, k, j) <= basket_sum(tokens, amounts, k, n),
    decreases n - j,
{
    if j < n {
        lemma_sum_mono(tokens, amounts, k, j, (n - 1) as nat);
    }
}

/// Taking a basket out fits wherever every balance covers what the basket
/// requires of its token.
pub proof fn lemma_fits_down(
    bal: Map<AccountId, Balance>,
    tokens: Seq<AccountId>,
    amounts: Seq<Balance>,
    n: nat,
)
    requires
        n <= tokens.len(),
        n <= amounts.len(),
        forall|k: AccountId| #[trigger] amount_in(bal, k) >= basket_sum(tokens, amounts, k, n),
    ensures
        shift_fits(bal, tokens, amounts, n, false),
    decreases n,
{
    if n > 0 {
        let m = (n - 1) as nat;
        assert forall|k: AccountId| #[trigger] amount_in(bal, k) >= basket_sum(tokens, amounts, k, m) by {
            lemma_sum_mono(tokens, amounts, k, m, n);
            assert(amount_in(bal, k) >= basket_sum(tokens, amounts, k, n));
        }
        lemma_fits_down(bal, tokens, amounts, m);
        lemma_shifted_amounts(bal, tokens, amounts, m, false);
        assert(amount_in(bal, tokens[m as int]) >= basket_sum(tokens, amounts, tokens[m as int], n));
    }
}

/// In a basket whose tokens are distinct, what a prefix requires of a token is
/// its one entry's amount, or nothing if the token is not in the prefix.
pub proof fn lemma_sum_distinct(tokens: Seq<AccountId>, amounts: Seq<Balance>, k: AccountId, n: nat)
    requires
        n <= tokens.len(),
        forall|i: int, j: int| 0 <= i < j < tokens.len() ==> tokens[i] != tokens[j],
    ensures
        (forall|i: int| 0 <= i < n ==> tokens[i] != k) ==> basket_sum(tokens, amounts, k, n) == 0,
        forall|i: int|
            0 <= i < n && tokens[i] == k ==> basket_sum(tokens, amounts, k, n) == amounts[i],
    decreases n,
{
    if n > 0 {
        lemma_sum_distinct(tokens, amounts, k, (n - 1) as nat);
    }
}

} // verus!
