use vstd::prelude::*;

use crate::account::AccountId;

verus! {

/// Largest balance an account can hold.
pub const MAX_BALANCE: u128 = 0xffff_ffff_ffff_ffff_ffff_ffff_ffff_ffffu128;

/// Why a ledger call was refused. A refused call changes nothing.
#[derive(Debug, Clone, Copy, PartialEq, Eq, Structural)]
pub enum Error {
    /// The caller holds less than the amount it asked to send.
    InsufficientBalance,
    /// The credited balance would exceed the largest representable balance.
    Overflow,
}

/// The balance that `s` records for `a`; an account without an entry holds 0.
pub open spec fn balance_in(s: Seq<(AccountId, u128)>, a: Seq<u8>) -> nat
    decreases s.len(),
{
    if s.len() == 0 {
        0
    } else if s.last().0@ == a {
        s.last().1 as nat
    } else {
        balance_in(s.drop_last(), a)
    }
}

/// The sum of all balances recorded in `s`.
pub open spec fn sum_in(s: Seq<(AccountId, u128)>) -> nat
    decreases s.len(),
{
    if s.len() == 0 {
        0
    } else {
        sum_in(s.drop_last()) + s.last().1 as nat
    }
}

/// No account has two entries in `s`.
pub open spec fn keys_unique(s: Seq<(AccountId, u128)>) -> bool {
    forall|i: int, j: int| 0 <= i < j < s.len() ==> s[i].0@ != s[j].0@
}

proof fn lemma_absent(s: Seq<(AccountId, u128)>, a: Seq<u8>)
    requires
        forall|i: int| 0 <= i < s.len() ==> s[i].0@ != a,
    ensures
        balance_in(s, a) == 0,
    decreases s.len(),
{
    if s.len() > 0 {
        lemma_absent(s.drop_last(), a);
    }
}

proof fn lemma_entry(s: Seq<(AccountId, u128)>, i: int)
    requires
        keys_unique(s),
        0 <= i < s.len(),
    ensures
        balance_in(s, s[i].0@) == s[i].1 as nat,
    decreases s.len(),
{
    if i < s.len() - 1 {
        lemma_entry(s.drop_last(), i);
    }
}

proof fn lemma_update_other(s: Seq<(AccountId, u128)>, i: int, e: (AccountId, u128), a: Seq<u8>)
    requires
        0 <= i < s.len(),
        s[i].0@ != a,
        e.0@ != a,
    ensures
        balance_in(s.update(i, e), a) == balance_in(s, a),
    decreases s.len(),
{
    let t = s.update(i, e);
    if i < s.len() - 1 {
        assert(t.drop_last() =~= s.drop_last().update(i, e));
        lemma_update_other(s.drop_last(), i, e, a);
    } else {
        assert(t.drop_last() =~= s.drop_last());
    }
}

proof fn lemma_sum_update(s: Seq<(AccountId, u128)>, i: int, e: (AccountId, u128))
    requires
        0 <= i < s.len(),
    ensures
        sum_in(s.update(i, e)) == sum_in(s) - s[i].1 + e.1,
    decreases s.len(),
{
    let t = s.update(i, e);
    if i < s.len() - 1 {
        assert(t.drop_last() =~= s.drop_last().update(i, e));
        lemma_sum_update(s.drop_last(), i, e);
    } else {
        assert(t.drop_last() =~= s.drop_last());
    }
}

proof fn lemma_push(s: Seq<(AccountId, u128)>, e: (AccountId, u128))
    ensures
        sum_in(s.push(e)) == sum_in(s) + e.1,
        balance_in(s.push(e), e.0@) == e.1 as nat,
        forall|a: Seq<u8>| a != e.0@ ==> balance_in(s.push(e), a) == balance_in(s, a),
{
    assert(s.push(e).drop_last() =~= s);
}

/// A ledger of balances, one per account.
pub struct Token {
    entries: Vec<(AccountId, u128)>,
}

impl Token {
    /// Every account has at most one entry.
    pub closed spec fn wf(&self) -> bool {
        keys_unique(self.entries@)
    }

    /// The balance of account `a`.
    pub closed spec fn balance(&self, a: Seq<u8>) -> nat {
        balance_in(self.entries@, a)
    }

    /// The total supply: the sum of all balances.
    pub closed spec fn supply(&self) -> nat {
        sum_in(self.entries@)
    }

    /// `post` is `pre` after `amount` was minted to `to`.
    pub open spec fn minted(pre: Token, post: Token, to: Seq<u8>, amount: u128) -> bool {
        &&& post.wf()
        &&& post.balance(to) == pre.balance(to) + amount
        &&& forall|a: Seq<u8>| a != to ==> post.balance(a) == pre.balance(a)
        &&& post.supply() == pre.supply() + amount
    }

    /// `post` is `pre` after `caller` sent `amount` to `to`.
    pub open spec fn transferred(
        pre: Token,
        post: Token,
        caller: Seq<u8>,
        to: Seq<u8>,
        amount: u128,
    ) -> bool {
        &&& post.wf()
        &&& caller != to ==> post.balance(caller) == pre.balance(caller) - amount
        &&& caller != to ==> post.balance(to) == pre.balance(to) + amount
        &&& caller == to ==> post.balance(caller) == pre.balance(caller)
        &&& forall|a: Seq<u8>| a != caller && a != to ==> post.balance(a) == pre.balance(a)
        &&& post.supply() == pre.supply()
    }

    /// An empty ledger: every account holds 0.
    pub fn new() -> (r: Token)
        ensures
            r.wf(),
            r.supply() == 0,
            forall|a: Seq<u8>| r.balance(a) == 0,
    {
        Token { entries: Vec::new() }
    }

    /// An empty ledger, as `new` makes it.
    pub fn default() -> (r: Token)
        ensures
            r.wf(),
            r.supply() == 0,
            forall|a: Seq<u8>| r.balance(a) == 0,
    {
        Token::new()
    }

    /// The position of `a`'s entry, if it has one.
    fn find(&self, a: &AccountId) -> (r: Option<usize>)
        requires
            self.wf(),
        ensures
            r matches Some(i) ==> i < self.entries@.len() && self.entries@[i as int].0@ == a@,
            r is None ==> forall|i: int|
                0 <= i < self.entries@.len() ==> self.entries@[i].0@ != a@,
    {
        let mut i: usize = 0;
        while i < self.entries.len()
            invariant
                0 <= i <= self.entries@.len(),
                forall|j: int| 0 <= j < i ==> self.entries@[j].0@ != a@,
            decreases self.entries@.len() - i,
        {
            if self.entries[i].0.same_as(a) {
                return Some(i);
            }
            i = i + 1;
        }
        None
    }

    /// The balance of `account`; 0 for an account that never held any.
    pub fn balance_of(&self, account: AccountId) -> (r: u128)
        requires
            self.wf(),
        ensures
            r == self.balance(account@),
    {
        match self.find(&account) {
            Some(i) => {
                proof {
                    lemma_entry(self.entries@, i as int);
                }
                self.entries[i].1
            },
            None => {
                proof {
                    lemma_absent(self.entries@, account@);
                }
                0
            },
        }
    }
    /// Sets the balance of `a` to `v`, adding an entry if `a` has none.
    fn set_balance(&mut self, a: AccountId, v: u128)
        requires
            old(self).wf(),
        ensures
            final(self).wf(),
            final(self).balance(a@) == v,
            forall|b: Seq<u8>| b != a@ ==> final(self).balance(b) == old(self).balance(b),
            final(self).supply() == old(self).supply() - old(self).balance(a@) + v,
    {
        let ghost s = self.entries@;
        match self.find(&a) {
            Some(i) => {
                proof {
                    lemma_entry(s, i as int);
                    lemma_sum_update(s, i as int, (a, v));
                    assert forall|b: Seq<u8>| b != a@ implies balance_in(
                        s.update(i as int, (a, v)),
                        b,
                    ) == balance_in(s, b) by {
                        lemma_update_other(s, i as int, (a, v), b);
                    }
                }
                self.entries.set(i, (a, v));
                proof {
                    assert(self.entries@ == s.update(i as int, (a, v)));
                    lemma_entry(self.entries@, i as int);
                }
            },
            None => {
                proof {
                    lemma_absent(s, a@);
                    lemma_push(s, (a, v));
                }
                self.entries.push((a, v));
            },
        }
    }

    /// Credits `amount` to `to`.
    ///
    /// Fails with `Overflow`, changing nothing, when the new balance would
    /// exceed the largest representable balance.
    pub fn mint(&mut self, to: AccountId, amount: u128) -> (r: Result<(), Error>)
        requires
            old(self).wf(),
        ensures
            final(self).wf(),
            r is Ok <==> old(self).balance(to@) + amount <= MAX_BALANCE,
            r is Err ==> r == Err::<(), Error>(Error::Overflow) && *final(self) == *old(self),
            r is Ok ==> Token::minted(*old(self), *final(self), to@, amount),
    {
        let current = self.balance_of(to);
        match current.checked_add(amount) {
            Some(new_balance) => {
                self.set_balance(to, new_balance);
                Ok(())
            },
            None => Err(Error::Overflow),
        }
    }

    /// Moves `amount` from `caller` to `to`.
    ///
    /// Fails with `InsufficientBalance` when the caller holds less than
    /// `amount`, and otherwise with `Overflow` when the credited balance would
    /// exceed the largest representable balance; a failed call changes
    /// nothing. A transfer to oneself passes the same checks and leaves the
    /// balance as it was.
    pub fn transfer(&mut self, caller: AccountId, to: AccountId, amount: u128) -> (r: Result<(), Error>)
        requires
            old(self).wf(),
        ensures
            final(self).wf(),
            r == Err::<(), Error>(Error::InsufficientBalance) <==> amount > old(self).balance(caller@),
            r == Err::<(), Error>(Error::Overflow) <==> amount <= old(self).balance(caller@)
                && old(self).balance(to@) + amount > MAX_BALANCE,
            r is Ok <==> amount <= old(self).balance(caller@) && old(self).balance(to@) + amount
                <= MAX_BALANCE,
            r is Err ==> *final(self) == *old(self),
            r is Ok ==> Token::transferred(*old(self), *final(self), caller@, to@, amount),
            caller@ == to@ && amount <= old(self).balance(caller@) && old(self).balance(caller@)
                + amount <= MAX_BALANCE ==> r is Ok && final(self).balance(caller@) == old(
                self,
            ).balance(caller@),
    {
        let caller_balance = self.balance_of(caller);
        if caller_balance < amount {
            return Err(Error::InsufficientBalance);
        }
        let to_balance = self.balance_of(to);
        let new_to_balance = match to_balance.checked_add(amount) {
            Some(v) => v,
            None => return Err(Error::Overflow),
        };
        if caller.same_as(&to) {
            return Ok(());
        }
        let new_caller_balance = caller_balance - amount;
        self.set_balance(caller, new_caller_balance);
        self.set_balance(to, new_to_balance);
        Ok(())
    }
}

impl Default for Token {
    /// An empty ledger, as `Token::new` makes it.
    fn default() -> (r: Token)
        ensures
            r.wf(),
            r.supply() == 0,
            forall|a: Seq<u8>| r.balance(a) == 0,
    {
        Token::new()
    }
}

/// A state-changing call on a ledger.
#[derive(Debug, Clone, Copy)]
pub enum LedgerCall {
    /// `mint(to, amount)`.
    Mint(AccountId, u128),
    /// `transfer(caller, to, amount)`.
    Transfer(AccountId, AccountId, u128),
}

/// `post` is `pre` after `call` succeeded.
pub open spec fn call_effect(pre: Token, post: Token, call: LedgerCall) -> bool {
    match call {
        LedgerCall::Mint(to, amount) => Token::minted(pre, post, to@, amount),
        LedgerCall::Transfer(caller, to, amount) => Token::transferred(
            pre,
            post,
            caller@,
            to@,
            amount,
        ),
    }
}

/// The sum of the amounts minted by `calls`.
pub open spec fn minted_total(calls: Seq<LedgerCall>) -> nat
    decreases calls.len(),
{
    if calls.len() == 0 {
        0
    } else {
        minted_total(calls.drop_last()) + match calls.last() {
            LedgerCall::Mint(_, amount) => amount as nat,
            LedgerCall::Transfer(_, _, _) => 0,
        }
    }
}

/// Conservation of value: along any run of successful mints and transfers,
/// where `states[i + 1]` is `states[i]` after `calls[i]`, the total supply
/// grows by exactly the amounts minted; transfers never change it.
pub proof fn supply_is_minted_total(states: Seq<Token>, calls: Seq<LedgerCall>)
    requires
        states.len() == calls.len() + 1,
        forall|i: int| 0 <= i < calls.len() ==> call_effect(states[i], states[i + 1], calls[i]),
    ensures
        states.last().supply() == states[0].supply() + minted_total(calls),
    decreases calls.len(),
{
    if calls.len() > 0 {
        let n = calls.len() - 1;
        supply_is_minted_total(states.drop_last(), calls.drop_last());
        assert(call_effect(states[n], states[n + 1], calls[n]));
    }
}

/// Reading a balance is stable: two reads of one account in one state agree,
/// since the result is a function of the state and the account alone.
pub proof fn balance_read_is_stable(t: Token, account: AccountId, r1: u128, r2: u128)
    requires
        r1 == t.balance(account@),
        r2 == t.balance(account@),
    ensures
        r1 == r2,
{
}

} // verus!
