//! The balance ledger: who holds how much of which asset.
//!
//! The ledger is a list of holdings in which no account appears twice for
//! one asset. What it means is read off by two functions: the balance of an
//! account in an asset, and the total of an asset over all accounts. Every
//! total fits in 128 bits, so no balance can overflow either.

use vstd::prelude::*;
use crate::primitives::{AccountId, Balance, Error, Token};
use crate::math::{
    sum,
    lemma_sum_dominates_term,
    lemma_sum_prefix_at_most,
    lemma_sum_push,
    lemma_sum_take_next,
    lemma_sum_update,
};
use crate::lookup::{position, lemma_position, lemma_position_push, lemma_position_unique};

verus! {

/// One account's holding of one asset.
#[derive(Clone, Copy, Debug, PartialEq, Eq, Structural)]
pub struct Holding {
    pub who: AccountId,
    pub token: Token,
    pub amount: Balance,
}

/// The account and asset of each holding, in the order of the list.
pub open spec fn holding_keys(holdings: Seq<Holding>) -> Seq<(AccountId, Token)> {
    Seq::new(holdings.len(), |i: int| (holdings[i].who, holdings[i].token))
}

/// What `who` holds of `token`: the amount of its holding, or nothing where
/// it has none.
pub open spec fn balance_in(holdings: Seq<Holding>, who: AccountId, token: Token) -> Balance {
    match position(holding_keys(holdings), (who, token)) {
        Some(i) => holdings[i].amount,
        None => 0,
    }
}

/// The amounts of `token` along the list, with zero in the place of every
/// holding of another asset.
pub open spec fn amounts_in(holdings: Seq<Holding>, token: Token) -> Seq<int> {
    Seq::new(
        holdings.len(),
        |i: int|
            if holdings[i].token == token {
                holdings[i].amount as int
            } else {
                0
            },
    )
}

/// The outstanding amount of `token`: the sum of all holdings of it.
pub open spec fn total_in(holdings: Seq<Holding>, token: Token) -> int {
    sum(amounts_in(holdings, token))
}

/// No account holds an asset twice, and every asset's total fits in 128
/// bits.
pub open spec fn ledger_wf(holdings: Seq<Holding>) -> bool {
    &&& holding_keys(holdings).no_duplicates()
    &&& forall|token: Token| #[trigger] total_in(holdings, token) <= u128::MAX
}

/// A balance is part of its asset's total.
pub proof fn lemma_balance_within_total(holdings: Seq<Holding>, who: AccountId, token: Token)
    ensures
        0 <= balance_in(holdings, who, token) <= total_in(holdings, token),
{
    let keys = holding_keys(holdings);
    let terms = amounts_in(holdings, token);
    lemma_position(keys, (who, token));
    match position(keys, (who, token)) {
        Some(i) => {
            assert(keys[i] == (who, token));
            assert(terms[i] == holdings[i].amount);
            lemma_sum_dominates_term(terms, i);
        },
        None => {
            lemma_sum_prefix_at_most(terms, 0);
        },
    }
}

/// The ledger with nothing in it holds nothing.
pub proof fn lemma_empty_ledger()
    ensures
        ledger_wf(Seq::<Holding>::empty()),
        forall|who: AccountId, token: Token|
            #[trigger] balance_in(Seq::<Holding>::empty(), who, token) == 0,
        forall|token: Token| #[trigger] total_in(Seq::<Holding>::empty(), token) == 0,
{
    let none = Seq::<Holding>::empty();
    assert(holding_keys(none) =~= Seq::<(AccountId, Token)>::empty());
    assert forall|token: Token| #[trigger] total_in(none, token) == 0 by {
        assert(amounts_in(none, token) =~= Seq::<int>::empty());
    }
}

/// Changing the amount of the holding at `i` changes that account's balance
/// and that asset's total by the same difference, and nothing else.
pub proof fn lemma_amount_changed(holdings: Seq<Holding>, i: int, amount: Balance)
    requires
        holding_keys(holdings).no_duplicates(),
        0 <= i < holdings.len(),
    ensures
        ({
            let old_one = holdings[i];
            let changed = holdings.update(
                i,
                Holding { who: old_one.who, token: old_one.token, amount },
            );
            &&& holding_keys(changed) == holding_keys(holdings)
            &&& forall|who: AccountId, token: Token|
                #[trigger] balance_in(changed, who, token) == if who == old_one.who && token
                    == old_one.token {
                    amount
                } else {
                    balance_in(holdings, who, token)
                }
            &&& forall|token: Token|
                #[trigger] total_in(changed, token) == total_in(holdings, token) + if token
                    == old_one.token {
                    amount - old_one.amount
                } else {
                    0
                }
        }),
{
    let old_one = holdings[i];
    let changed = holdings.update(i, Holding { who: old_one.who, token: old_one.token, amount });
    let keys = holding_keys(holdings);
    assert(holding_keys(changed) =~= keys);
    assert forall|who: AccountId, token: Token|
        #[trigger] balance_in(changed, who, token) == if who == old_one.who && token
            == old_one.token {
            amount
        } else {
            balance_in(holdings, who, token)
        } by {
        lemma_position(keys, (who, token));
        if who == old_one.who && token == old_one.token {
            assert(keys[i] == (who, token));
            lemma_position_unique(keys, i, (who, token));
        } else {
            assert(keys[i] != (who, token));
        }
    }
    assert forall|token: Token|
        #[trigger] total_in(changed, token) == total_in(holdings, token) + if token
            == old_one.token {
            amount - old_one.amount
        } else {
            0
        } by {
        let terms = amounts_in(holdings, token);
        let term: int = if token == old_one.token {
            amount as int
        } else {
            0
        };
        assert(amounts_in(changed, token) =~= terms.update(i, term));
        lemma_sum_update(terms, i, term);
    }
}

/// Appending a holding for an account that had none of the asset gives that
/// account the amount, adds it to the asset's total, and changes nothing
/// else.
pub proof fn lemma_holding_added(holdings: Seq<Holding>, added: Holding)
    requires
        holding_keys(holdings).no_duplicates(),
        !holding_keys(holdings).contains((added.who, added.token)),
    ensures
        ({
            let longer = holdings.push(added);
            &&& holding_keys(longer).no_duplicates()
            &&& forall|who: AccountId, token: Token|
                #[trigger] balance_in(longer, who, token) == if who == added.who && token
                    == added.token {
                    added.amount
                } else {
                    balance_in(holdings, who, token)
                }
            &&& forall|token: Token|
                #[trigger] total_in(longer, token) == total_in(holdings, token) + if token
                    == added.token {
                    added.amount as int
                } else {
                    0
                }
        }),
{
    let longer = holdings.push(added);
    let keys = holding_keys(holdings);
    let new_key = (added.who, added.token);
    assert(holding_keys(longer) =~= keys.push(new_key));
    lemma_position_push(keys, new_key, new_key);
    assert forall|who: AccountId, token: Token|
        #[trigger] balance_in(longer, who, token) == if who == added.who && token == added.token {
            added.amount
        } else {
            balance_in(holdings, who, token)
        } by {
        lemma_position_push(keys, new_key, (who, token));
        lemma_position(keys, (who, token));
    }
    assert forall|token: Token|
        #[trigger] total_in(longer, token) == total_in(holdings, token) + if token == added.token {
            added.amount as int
        } else {
            0
        } by {
        let terms = amounts_in(holdings, token);
        let term: int = if token == added.token {
            added.amount as int
        } else {
            0
        };
        assert(amounts_in(longer, token) =~= terms.push(term));
        lemma_sum_push(terms, term);
    }
}

/// The list after `value` units of `token` were created in the hands of
/// `who`: the holding has grown in its place, or a new holding stands at the
/// end.
pub open spec fn issued(
    holdings: Seq<Holding>,
    who: AccountId,
    token: Token,
    value: Balance,
) -> Seq<Holding> {
    match position(holding_keys(holdings), (who, token)) {
        Some(i) => holdings.update(
            i,
            Holding { who, token, amount: (holdings[i].amount + value) as Balance },
        ),
        None => holdings.push(Holding { who, token, amount: value }),
    }
}

/// The second ledger is the first with the balance of `who` in `token`
/// changed by `delta`: that balance and that asset's total have moved by
/// `delta`, and every other balance and total is as it was.
pub open spec fn balance_changed(
    before: Seq<Holding>,
    after: Seq<Holding>,
    who: AccountId,
    token: Token,
    delta: int,
) -> bool {
    &&& forall|a: AccountId, t: Token|
        #[trigger] balance_in(after, a, t) == if a == who && t == token {
            balance_in(before, a, t) + delta
        } else {
            balance_in(before, a, t) as int
        }
    &&& forall|t: Token|
        #[trigger] total_in(after, t) == total_in(before, t) + if t == token {
            delta
        } else {
            0
        }
}

/// The second ledger is the first with `value` units of `token` moved from
/// `from` to `to`: the two balances have changed by that much, and every
/// other balance and every total is as it was.
pub open spec fn balance_moved(
    before: Seq<Holding>,
    after: Seq<Holding>,
    token: Token,
    from: AccountId,
    to: AccountId,
    value: Balance,
) -> bool {
    &&& forall|a: AccountId, t: Token|
        #[trigger] balance_in(after, a, t) == if t == token && from != to && a == from {
            balance_in(before, a, t) - value
        } else if t == token && from != to && a == to {
            balance_in(before, a, t) + value
        } else {
            balance_in(before, a, t) as int
        }
    &&& forall|t: Token| #[trigger] total_in(after, t) == total_in(before, t)
}

/// The balance ledger.
pub struct Assets {
    holdings: Vec<Holding>,
}

impl View for Assets {
    type V = Seq<Holding>;

    closed spec fn view(&self) -> Seq<Holding> {
        self.holdings@
    }
}

impl Assets {
    /// The ledger's invariant.
    pub open spec fn wf(&self) -> bool {
        ledger_wf(self@)
    }

    /// What `who` holds of `token`.
    pub open spec fn balance(&self, who: AccountId, token: Token) -> Balance {
        balance_in(self@, who, token)
    }

    /// The outstanding amount of `token`.
    pub open spec fn total(&self, token: Token) -> int {
        total_in(self@, token)
    }

    /// A ledger in which nobody holds anything.
    pub fn new() -> (ledger: Assets)
        ensures
            ledger.wf(),
            ledger@ == Seq::<Holding>::empty(),
            forall|who: AccountId, token: Token| #[trigger] ledger.balance(who, token) == 0,
            forall|token: Token| #[trigger] ledger.total(token) == 0,
    {
        proof {
            lemma_empty_ledger();
        }
        Assets { holdings: Vec::new() }
    }

    fn find(&self, who: AccountId, token: Token) -> (found: Option<usize>)
        requires
            self.wf(),
        ensures
            match found {
                Some(i) => i < self@.len() && position(holding_keys(self@), (who, token)) == Some(
                    i as int,
                ),
                None => position(holding_keys(self@), (who, token)) is None,
            },
    {
        let ghost keys = holding_keys(self@);
        let mut i: usize = 0;
        while i < self.holdings.len()
            invariant
                i <= self.holdings.len(),
                keys == holding_keys(self@),
                keys.no_duplicates(),
                forall|j: int| 0 <= j < i ==> keys[j] != (who, token),
            decreases self.holdings.len() - i,
        {
            if self.holdings[i].who == who && self.holdings[i].token == token {
                proof {
                    assert(keys[i as int] == (who, token));
                    lemma_position_unique(keys, i as int, (who, token));
                }
                return Some(i);
            }
            i += 1;
        }
        None
    }

    /// What `who` holds of `token`.
    pub fn all_type_balance_of(&self, who: AccountId, token: Token) -> (amount: Balance)
        requires
            self.wf(),
        ensures
            amount == self.balance(who, token),
    {
        match self.find(who, token) {
            Some(i) => self.holdings[i].amount,
            None => 0,
        }
    }

    /// The outstanding amount of `token`.
    pub fn all_type_balance(&self, token: Token) -> (total: Balance)
        requires
            self.wf(),
        ensures
            total == self.total(token),
    {
        let ghost terms = amounts_in(self@, token);
        assert(total_in(self@, token) <= u128::MAX);
        let mut total: u128 = 0;
        let mut i: usize = 0;
        while i < self.holdings.len()
            invariant
                i <= self.holdings.len(),
                terms == amounts_in(self@, token),
                sum(terms) <= u128::MAX,
                total == sum(terms.take(i as int)),
            decreases self.holdings.len() - i,
        {
            proof {
                lemma_sum_take_next(terms, i as int);
                lemma_sum_prefix_at_most(terms, i + 1);
            }
            if self.holdings[i].token == token {
                total = total + self.holdings[i].amount;
            }
            i += 1;
        }
        proof {
            assert(terms.take(i as int) =~= terms);
        }
        total
    }

    /// Creates `value` units of `token` in the hands of `who`.
    ///
    /// Rejected, with the ledger untouched, exactly when the asset's total
    /// would leave 128 bits.
    pub fn issue(&mut self, token: Token, who: AccountId, value: Balance) -> (result: Result<
        (),
        Error,
    >)
        requires
            old(self).wf(),
        ensures
            final(self).wf(),
            match result {
                Ok(()) => {
                    &&& old(self).total(token) + value <= u128::MAX
                    &&& final(self)@ == issued(old(self)@, who, token, value)
                    &&& balance_changed(old(self)@, final(self)@, who, token, value as int)
                },
                Err(e) => {
                    &&& e == Error::Overflow
                    &&& old(self).total(token) + value > u128::MAX
                    &&& final(self)@ == old(self)@
                },
            },
    {
        let total = self.all_type_balance(token);
        if total > u128::MAX - value {
            return Err(Error::Overflow);
        }
        proof {
            lemma_balance_within_total(self@, who, token);
            lemma_position(holding_keys(self@), (who, token));
        }
        match self.find(who, token) {
            Some(i) => {
                let held = self.holdings[i];
                proof {
                    lemma_amount_changed(self@, i as int, (held.amount + value) as Balance);
                }
                self.holdings.set(
                    i,
                    Holding { who: held.who, token: held.token, amount: held.amount + value },
                );
            },
            None => {
                let added = Holding { who, token, amount: value };
                proof {
                    lemma_holding_added(self@, added);
                }
                self.holdings.push(added);
            },
        }
        Ok(())
    }

    /// Removes `value` units of `token` from the hands of `who`.
    ///
    /// Rejected, with the ledger untouched, exactly when `who` holds less.
    pub fn destroy(&mut self, token: Token, who: AccountId, value: Balance) -> (result: Result<
        (),
        Error,
    >)
        requires
            old(self).wf(),
        ensures
            final(self).wf(),
            match result {
                Ok(()) => {
                    &&& old(self).balance(who, token) >= value
                    &&& balance_changed(old(self)@, final(self)@, who, token, -(value as int))
                },
                Err(e) => {
                    &&& e == Error::InsufficientBalance
                    &&& old(self).balance(who, token) < value
                    &&& final(self)@ == old(self)@
                },
            },
    {
        match self.find(who, token) {
            Some(i) => {
                let held = self.holdings[i];
                if held.amount < value {
                    return Err(Error::InsufficientBalance);
                }
                proof {
                    lemma_amount_changed(self@, i as int, (held.amount - value) as Balance);
                }
                self.holdings.set(
                    i,
                    Holding { who: held.who, token: held.token, amount: held.amount - value },
                );
                Ok(())
            },
            None => {
                if value > 0 {
                    Err(Error::InsufficientBalance)
                } else {
                    Ok(())
                }
            },
        }
    }

    /// Moves `value` units of `token` from `from` to `to`.
    ///
    /// Rejected, with the ledger untouched, exactly when `from` holds less.
    /// A move from an account to itself changes nothing.
    pub fn move_balance(
        &mut self,
        token: Token,
        from: AccountId,
        to: AccountId,
        value: Balance,
    ) -> (result: Result<(), Error>)
        requires
            old(self).wf(),
        ensures
            final(self).wf(),
            match result {
                Ok(()) => {
                    &&& old(self).balance(from, token) >= value
                    &&& balance_moved(old(self)@, final(self)@, token, from, to, value)
                },
                Err(e) => {
                    &&& e == Error::InsufficientBalance
                    &&& old(self).balance(from, token) < value
                    &&& final(self)@ == old(self)@
                },
            },
    {
        if self.all_type_balance_of(from, token) < value {
            return Err(Error::InsufficientBalance);
        }
        if from == to {
            return Ok(());
        }
        let taken = self.destroy(token, from, value);
        assert(taken is Ok);
        let given = self.issue(token, to, value);
        assert(given is Ok);
        Ok(())
    }
}

} // verus!
