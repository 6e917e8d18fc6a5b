//! Model of the external token ledger service: one balance per
//! (owner, token type) pair, with all-or-nothing moves.

use vstd::prelude::*;

use crate::errors::ErrorCode;

verus! {

/// One ledger account: the balance that `owner` holds of the token type
/// `token`.
#[derive(Clone, Copy, Debug, PartialEq, Eq, Structural)]
pub struct LedgerEntry {
    pub owner: u64,
    pub token: u64,
    pub amount: u64,
}

/// Whether `e` is the account of `owner` for `token`.
pub open spec fn entry_matches(e: LedgerEntry, owner: u64, token: u64) -> bool {
    e.owner == owner && e.token == token
}

/// The first account for the pair in `s`, if any.
pub open spec fn find_account(s: Seq<LedgerEntry>, owner: u64, token: u64) -> Option<LedgerEntry>
    decreases s.len(),
{
    if s.len() == 0 {
        None
    } else if entry_matches(s[0], owner, token) {
        Some(s[0])
    } else {
        find_account(s.drop_first(), owner, token)
    }
}

/// No two accounts of `s` cover the same (owner, token) pair.
pub open spec fn unique_accounts(s: Seq<LedgerEntry>) -> bool {
    forall|i: int, j: int|
        #![trigger s[i], s[j]]
        0 <= i < j < s.len() ==> !(s[i].owner == s[j].owner && s[i].token == s[j].token)
}

proof fn lemma_unique_drop_first(s: Seq<LedgerEntry>)
    requires
        unique_accounts(s),
        s.len() > 0,
    ensures
        unique_accounts(s.drop_first()),
{
    assert forall|i: int, j: int| 0 <= i < j < s.drop_first().len() implies !(s.drop_first()[i].owner
        == s.drop_first()[j].owner && s.drop_first()[i].token == s.drop_first()[j].token) by {
        assert(s.drop_first()[i] == s[i + 1]);
        assert(s.drop_first()[j] == s[j + 1]);
    }
}

proof fn lemma_find_at(s: Seq<LedgerEntry>, owner: u64, token: u64, i: int)
    requires
        unique_accounts(s),
        0 <= i < s.len(),
        entry_matches(s[i], owner, token),
    ensures
        find_account(s, owner, token) == Some(s[i]),
    decreases s.len(),
{
    if i > 0 {
        assert(!(s[0].owner == s[i].owner && s[0].token == s[i].token));
        lemma_unique_drop_first(s);
        assert(s.drop_first()[i - 1] == s[i]);
        lemma_find_at(s.drop_first(), owner, token, i - 1);
    }
}

proof fn lemma_find_none(s: Seq<LedgerEntry>, owner: u64, token: u64)
    requires
        forall|k: int| 0 <= k < s.len() ==> !entry_matches(#[trigger] s[k], owner, token),
    ensures
        find_account(s, owner, token) is None,
    decreases s.len(),
{
    if s.len() > 0 {
        assert forall|k: int| 0 <= k < s.drop_first().len() implies !entry_matches(
            #[trigger] s.drop_first()[k],
            owner,
            token,
        ) by {
            assert(s.drop_first()[k] == s[k + 1]);
        }
        lemma_find_none(s.drop_first(), owner, token);
    }
}

proof fn lemma_find_none_to_all(s: Seq<LedgerEntry>, owner: u64, token: u64)
    requires
        find_account(s, owner, token) is None,
    ensures
        forall|k: int| 0 <= k < s.len() ==> !entry_matches(#[trigger] s[k], owner, token),
    decreases s.len(),
{
    if s.len() > 0 {
        lemma_find_none_to_all(s.drop_first(), owner, token);
        assert forall|k: int| 0 <= k < s.len() implies !entry_matches(
            #[trigger] s[k],
            owner,
            token,
        ) by {
            if k > 0 {
                assert(s.drop_first()[k - 1] == s[k]);
            }
        }
    }
}

proof fn lemma_find_update(s: Seq<LedgerEntry>, i: int, e2: LedgerEntry, owner: u64, token: u64)
    requires
        unique_accounts(s),
        0 <= i < s.len(),
        e2.owner == s[i].owner,
        e2.token == s[i].token,
    ensures
        unique_accounts(s.update(i, e2)),
        find_account(s.update(i, e2), owner, token) == (if entry_matches(e2, owner, token) {
            Some(e2)
        } else {
            find_account(s, owner, token)
        }),
    decreases s.len(),
{
    let t = s.update(i, e2);
    assert forall|p: int, q: int| 0 <= p < q < t.len() implies !(t[p].owner == t[q].owner
        && t[p].token == t[q].token) by {
        assert(t[p].owner == s[p].owner && t[p].token == s[p].token);
        assert(t[q].owner == s[q].owner && t[q].token == s[q].token);
    }
    if i == 0 {
        assert(t[0] == e2);
        if !entry_matches(e2, owner, token) {
            assert(!entry_matches(s[0], owner, token));
            assert(t.drop_first() =~= s.drop_first());
        }
    } else {
        assert(t[0] == s[0]);
        if entry_matches(s[0], owner, token) {
            if entry_matches(e2, owner, token) {
                assert(!(s[0].owner == s[i].owner && s[0].token == s[i].token));
                assert(false);
            }
        } else {
            lemma_unique_drop_first(s);
            assert(t.drop_first() =~= s.drop_first().update(i - 1, e2));
            lemma_find_update(s.drop_first(), i - 1, e2, owner, token);
        }
    }
}

proof fn lemma_find_push(s: Seq<LedgerEntry>, e: LedgerEntry, owner: u64, token: u64)
    requires
        unique_accounts(s),
        find_account(s, e.owner, e.token) is None,
    ensures
        unique_accounts(s.push(e)),
        find_account(s.push(e), owner, token) == (if find_account(s, owner, token) is Some {
            find_account(s, owner, token)
        } else if entry_matches(e, owner, token) {
            Some(e)
        } else {
            None::<LedgerEntry>
        }),
    decreases s.len(),
{
    lemma_find_none_to_all(s, e.owner, e.token);
    let t = s.push(e);
    assert forall|p: int, q: int| 0 <= p < q < t.len() implies !(t[p].owner == t[q].owner
        && t[p].token == t[q].token) by {
        assert(t[p] == s[p]);
        if q == s.len() {
            assert(t[q] == e);
        } else {
            assert(t[q] == s[q]);
        }
    }
    if s.len() == 0 {
        assert(t[0] == e);
        if !entry_matches(e, owner, token) {
            assert(t.drop_first() =~= Seq::<LedgerEntry>::empty());
        }
    } else {
        assert(t[0] == s[0]);
        if !entry_matches(s[0], owner, token) {
            lemma_unique_drop_first(s);
            assert(t.drop_first() =~= s.drop_first().push(e));
            lemma_find_push(s.drop_first(), e, owner, token);
        }
    }
}

/// The token ledger: a set of accounts, at most one per (owner, token type)
/// pair. A pair without an account holds a zero balance, so account creation
/// is implicit in the first credit.
pub struct Ledger {
    entries: Vec<LedgerEntry>,
}

impl Ledger {
    /// No two accounts cover the same (owner, token type) pair.
    pub closed spec fn wf(self) -> bool {
        unique_accounts(self.entries@)
    }

    /// The balance `owner` holds of `token`.
    pub closed spec fn balance(self, owner: u64, token: u64) -> u64 {
        match find_account(self.entries@, owner, token) {
            None => 0u64,
            Some(e) => e.amount,
        }
    }

    /// A fresh ledger: every balance is zero.
    pub fn new() -> (r: Ledger)
        ensures
            r.wf(),
            forall|o: u64, t: u64| r.balance(o, t) == 0,
    {
        Ledger { entries: Vec::new() }
    }

    fn find_index(&self, owner: u64, token: u64) -> (r: Option<usize>)
        requires
            self.wf(),
        ensures
            match r {
                Some(i) => i < self.entries@.len() && entry_matches(
                    self.entries@[i as int],
                    owner,
                    token,
                ) && find_account(self.entries@, owner, token) == Some(self.entries@[i as int]),
                None => find_account(self.entries@, owner, token) is None,
            },
    {
        let n = self.entries.len();
        let mut i: usize = 0;
        while i < n
            invariant
                i <= n,
                n == self.entries@.len(),
                self.wf(),
                forall|k: int| 0 <= k < i ==> !entry_matches(#[trigger] self.entries@[k], owner, token),
            decreases n - i,
        {
            if self.entries[i].owner == owner && self.entries[i].token == token {
                proof {
                    lemma_find_at(self.entries@, owner, token, i as int);
                }
                return Some(i);
            }
            i += 1;
        }
        proof {
            lemma_find_none(self.entries@, owner, token);
        }
        None
    }

    /// Reads a balance, as the ledger service's balance query does.
    pub fn balance_of(&self, owner: u64, token: u64) -> (r: u64)
        requires
            self.wf(),
        ensures
            r == self.balance(owner, token),
    {
        match self.find_index(owner, token) {
            Some(i) => self.entries[i].amount,
            None => 0,
        }
    }

    /// Adds `amount` to one balance, creating the account if the pair has
    /// none. Fails with `Overflow`, changing nothing, when the balance cannot
    /// take the amount.
    pub fn credit(&mut self, owner: u64, token: u64, amount: u64) -> (r: Result<(), ErrorCode>)
        requires
            old(self).wf(),
        ensures
            final(self).wf(),
            r is Ok <==> old(self).balance(owner, token) + amount <= u64::MAX,
            r is Err ==> r == Err::<(), ErrorCode>(ErrorCode::Overflow) && (forall|o: u64, t: u64|
                final(self).balance(o, t) == old(self).balance(o, t)),
            r is Ok ==> (forall|o: u64, t: u64|
                final(self).balance(o, t) == old(self).balance(o, t) + (if o == owner && t
                    == token {
                    amount as int
                } else {
                    0
                })),
    {
        match self.find_index(owner, token) {
            Some(i) => {
                let e = self.entries[i];
                if e.amount > u64::MAX - amount {
                    return Err(ErrorCode::Overflow);
                }
                let e2 = LedgerEntry { owner: e.owner, token: e.token, amount: e.amount + amount };
                self.entries[i] = e2;
                proof {
                    lemma_find_update(old(self).entries@, i as int, e2, owner, token);
                    assert forall|o: u64, t: u64|
                        self.balance(o, t) == old(self).balance(o, t) + (if o == owner && t
                            == token {
                            amount as int
                        } else {
                            0
                        }) by {
                        lemma_find_update(old(self).entries@, i as int, e2, o, t);
                    }
                }
                Ok(())
            },
            None => {
                let e = LedgerEntry { owner, token, amount };
                self.entries.push(e);
                proof {
                    lemma_find_push(old(self).entries@, e, owner, token);
                    assert forall|o: u64, t: u64|
                        self.balance(o, t) == old(self).balance(o, t) + (if o == owner && t
                            == token {
                            amount as int
                        } else {
                            0
                        }) by {
                        lemma_find_push(old(self).entries@, e, o, t);
                    }
                }
                Ok(())
            },
        }
    }

    /// Removes `amount` from one balance. Fails with `InsufficientBalance`,
    /// changing nothing, when the balance is short of the amount.
    pub fn debit(&mut self, owner: u64, token: u64, amount: u64) -> (r: Result<(), ErrorCode>)
        requires
            old(self).wf(),
        ensures
            final(self).wf(),
            r is Ok <==> old(self).balance(owner, token) >= amount,
            r is Err ==> r == Err::<(), ErrorCode>(ErrorCode::InsufficientBalance) && (forall|
                o: u64,
                t: u64,
            |
                final(self).balance(o, t) == old(self).balance(o, t)),
            r is Ok ==> (forall|o: u64, t: u64|
                final(self).balance(o, t) == old(self).balance(o, t) - (if o == owner && t
                    == token {
                    amount as int
                } else {
                    0
                })),
    {
        match self.find_index(owner, token) {
            Some(i) => {
                let e = self.entries[i];
                if e.amount < amount {
                    return Err(ErrorCode::InsufficientBalance);
                }
                let e2 = LedgerEntry { owner: e.owner, token: e.token, amount: e.amount - amount };
                self.entries[i] = e2;
                proof {
                    lemma_find_update(old(self).entries@, i as int, e2, owner, token);
                    assert forall|o: u64, t: u64|
                        self.balance(o, t) == old(self).balance(o, t) - (if o == owner && t
                            == token {
                            amount as int
                        } else {
                            0
                        }) by {
                        lemma_find_update(old(self).entries@, i as int, e2, o, t);
                    }
                }
                Ok(())
            },
            None => {
                if amount > 0 {
                    Err(ErrorCode::InsufficientBalance)
                } else {
                    Ok(())
                }
            },
        }
    }

    /// Moves `amount` of `token` from `from` to `to`, all or nothing: on any
    /// failure no balance changes. A move from an account to itself leaves
    /// every balance as it was.
    pub fn transfer(&mut self, from: u64, to: u64, token: u64, amount: u64) -> (r: Result<
        (),
        ErrorCode,
    >)
        requires
            old(self).wf(),
        ensures
            final(self).wf(),
            r is Ok <==> (old(self).balance(from, token) >= amount && (from == to || old(
                self,
            ).balance(to, token) + amount <= u64::MAX)),
            old(self).balance(from, token) < amount ==> r == Err::<(), ErrorCode>(
                ErrorCode::InsufficientBalance,
            ),
            (old(self).balance(from, token) >= amount && from != to && old(self).balance(to, token)
                + amount > u64::MAX) ==> r == Err::<(), ErrorCode>(ErrorCode::Overflow),
            r is Err ==> (forall|o: u64, t: u64|
                final(self).balance(o, t) == old(self).balance(o, t)),
            r is Ok ==> (forall|o: u64, t: u64|
                final(self).balance(o, t) == old(self).balance(o, t) + (if o == to && t == token {
                    amount as int
                } else {
                    0
                }) - (if o == from && t == token {
                    amount as int
                } else {
                    0
                })),
    {
        let bal_from = self.balance_of(from, token);
        if bal_from < amount {
            return Err(ErrorCode::InsufficientBalance);
        }
        if from == to {
            return Ok(());
        }
        let bal_to = self.balance_of(to, token);
        if bal_to > u64::MAX - amount {
            return Err(ErrorCode::Overflow);
        }
        match self.debit(from, token, amount) {
            Ok(()) => {},
            Err(e) => {
                return Err(e);
            },
        }
        match self.credit(to, token, amount) {
            Ok(()) => {},
            Err(e) => {
                return Err(e);
            },
        }
        Ok(())
    }
}

} // verus!
