//! In-memory model of the account state the bridge reads and writes:
//! balances, nonces and code, keyed by (space, address). An absent account
//! reads as balance 0, the configured start nonce, and no code.
use vstd::prelude::*;

use crate::bytes::{bytes_eq, copy_bytes};
use crate::hashing::{keccak_bytes, keccak_of};
use crate::types::Space;

verus! {

pub struct AccountEntry {
    pub space: Space,
    pub addr: Vec<u8>,
    pub balance: u128,
    pub nonce: u128,
    pub code: Option<Vec<u8>>,
}

/// Mathematical image of one account.
pub struct AccountV {
    pub balance: u128,
    pub nonce: u128,
    pub code: Option<Seq<u8>>,
}

pub open spec fn entry_v(e: AccountEntry) -> AccountV {
    AccountV {
        balance: e.balance,
        nonce: e.nonce,
        code: crate::types::opt_view(e.code),
    }
}

pub open spec fn entry_matches(e: AccountEntry, sp: Space, a: Seq<u8>) -> bool {
    e.space == sp && e.addr@ == a
}

/// First entry of the sequence under the given key, if any.
pub open spec fn acct(s: Seq<AccountEntry>, sp: Space, a: Seq<u8>) -> Option<AccountV>
    decreases s.len(),
{
    if s.len() == 0 {
        Option::None
    } else if entry_matches(s[0], sp, a) {
        Option::Some(entry_v(s[0]))
    } else {
        acct(s.drop_first(), sp, a)
    }
}

/// The account state: a list of entries with pairwise distinct keys, and
/// the nonce a fresh account starts from.
pub struct Ledger {
    pub entries: Vec<AccountEntry>,
    pub start_nonce: u128,
}

pub open spec fn wf_entries(s: Seq<AccountEntry>) -> bool {
    forall|i: int, j: int|
        0 <= i < j < s.len() ==> !entry_matches(#[trigger] s[i], #[trigger] s[j].space, s[j].addr@)
}

impl Ledger {
    pub open spec fn wf(self) -> bool {
        wf_entries(self.entries@)
    }
}

pub open spec fn spec_balance(l: Ledger, sp: Space, a: Seq<u8>) -> u128 {
    match acct(l.entries@, sp, a) {
        Option::None => 0,
        Option::Some(e) => e.balance,
    }
}

pub open spec fn spec_nonce(l: Ledger, sp: Space, a: Seq<u8>) -> u128 {
    match acct(l.entries@, sp, a) {
        Option::None => l.start_nonce,
        Option::Some(e) => e.nonce,
    }
}

pub open spec fn spec_code(l: Ledger, sp: Space, a: Seq<u8>) -> Option<Seq<u8>> {
    match acct(l.entries@, sp, a) {
        Option::None => Option::None,
        Option::Some(e) => e.code,
    }
}

/// An account exists and is not economically null: it holds balance, has
/// moved its nonce, or carries code.
pub open spec fn spec_active(l: Ledger, sp: Space, a: Seq<u8>) -> bool {
    spec_balance(l, sp, a) > 0 || spec_nonce(l, sp, a) != l.start_nonce || spec_code(l, sp, a)
        is Some
}

proof fn lemma_acct_found(s: Seq<AccountEntry>, sp: Space, a: Seq<u8>, i: int)
    requires
        0 <= i < s.len(),
        entry_matches(s[i], sp, a),
        forall|j: int| 0 <= j < i ==> !entry_matches(#[trigger] s[j], sp, a),
    ensures
        acct(s, sp, a) == Option::Some(entry_v(s[i])),
    decreases i,
{
    if i > 0 {
        assert(s.drop_first()[i - 1] == s[i]);
        assert forall|j: int| 0 <= j < i - 1 implies !entry_matches(
            #[trigger] s.drop_first()[j],
            sp,
            a,
        ) by {
            assert(s.drop_first()[j] == s[j + 1]);
        }
        lemma_acct_found(s.drop_first(), sp, a, i - 1);
    }
}

proof fn lemma_acct_absent(s: Seq<AccountEntry>, sp: Space, a: Seq<u8>)
    requires
        forall|j: int| 0 <= j < s.len() ==> !entry_matches(#[trigger] s[j], sp, a),
    ensures
        acct(s, sp, a) is None,
    decreases s.len(),
{
    if s.len() > 0 {
        assert forall|j: int| 0 <= j < s.len() - 1 implies !entry_matches(
            #[trigger] s.drop_first()[j],
            sp,
            a,
        ) by {
            assert(s.drop_first()[j] == s[j + 1]);
        }
        lemma_acct_absent(s.drop_first(), sp, a);
    }
}

/// Replacing the sole entry of a key changes only that key.
proof fn lemma_acct_update(s: Seq<AccountEntry>, i: int, e: AccountEntry)
    requires
        wf_entries(s),
        0 <= i < s.len(),
        entry_matches(s[i], e.space, e.addr@),
    ensures
        wf_entries(s.update(i, e)),
        acct(s.update(i, e), e.space, e.addr@) == Option::Some(entry_v(e)),
        forall|sp: Space, a: Seq<u8>|
            !(sp == e.space && a == e.addr@) ==> acct(s.update(i, e), sp, a) == acct(s, sp, a),
{
    let s2 = s.update(i, e);
    assert forall|p: int, q: int| 0 <= p < q < s2.len() implies !entry_matches(
        #[trigger] s2[p],
        #[trigger] s2[q].space,
        s2[q].addr@,
    ) by {
        assert(!entry_matches(s[p], s[q].space, s[q].addr@));
    }
    assert forall|j: int| 0 <= j < i implies !entry_matches(#[trigger] s2[j], e.space, e.addr@) by {
        assert(!entry_matches(s[j], s[i].space, s[i].addr@));
    }
    lemma_acct_found(s2, e.space, e.addr@, i);
    assert forall|sp: Space, a: Seq<u8>|
        !(sp == e.space && a == e.addr@) implies acct(s2, sp, a) == acct(s, sp, a) by {
        lemma_acct_frame(s, i, e, sp, a);
    }
}

/// Helper of `lemma_acct_update`: lookups of other keys see no change.
proof fn lemma_acct_frame(s: Seq<AccountEntry>, i: int, e: AccountEntry, sp: Space, a: Seq<u8>)
    requires
        0 <= i < s.len(),
        entry_matches(s[i], e.space, e.addr@),
        !(sp == e.space && a == e.addr@),
    ensures
        acct(s.update(i, e), sp, a) == acct(s, sp, a),
    decreases s.len(),
{
    let s2 = s.update(i, e);
    if i == 0 {
        assert(!entry_matches(s[0], sp, a));
        assert(!entry_matches(s2[0], sp, a));
        assert(s2.drop_first() =~= s.drop_first());
    } else {
        assert(s2[0] == s[0]);
        if entry_matches(s[0], sp, a) {
        } else {
            assert(s2.drop_first() =~= s.drop_first().update(i - 1, e));
            assert(s.drop_first()[i - 1] == s[i]);
            lemma_acct_frame(s.drop_first(), i - 1, e, sp, a);
        }
    }
}

/// Appending an entry of a fresh key changes only that key.
proof fn lemma_acct_push(s: Seq<AccountEntry>, e: AccountEntry)
    requires
        wf_entries(s),
        forall|j: int| 0 <= j < s.len() ==> !entry_matches(#[trigger] s[j], e.space, e.addr@),
    ensures
        wf_entries(s.push(e)),
        acct(s.push(e), e.space, e.addr@) == Option::Some(entry_v(e)),
        forall|sp: Space, a: Seq<u8>|
            !(sp == e.space && a == e.addr@) ==> acct(s.push(e), sp, a) == acct(s, sp, a),
{
    let s2 = s.push(e);
    assert forall|p: int, q: int| 0 <= p < q < s2.len() implies !entry_matches(
        #[trigger] s2[p],
        #[trigger] s2[q].space,
        s2[q].addr@,
    ) by {
        if q < s.len() {
            assert(s2[p] == s[p] && s2[q] == s[q]);
        } else {
            assert(s2[p] == s[p] && s2[q] == e);
        }
    }
    lemma_acct_found(s2, e.space, e.addr@, s.len() as int);
    assert forall|sp: Space, a: Seq<u8>|
        !(sp == e.space && a == e.addr@) implies acct(s2, sp, a) == acct(s, sp, a) by {
        lemma_acct_push_frame(s, e, sp, a);
    }
}

proof fn lemma_acct_push_frame(s: Seq<AccountEntry>, e: AccountEntry, sp: Space, a: Seq<u8>)
    requires
        !entry_matches(e, sp, a),
    ensures
        acct(s.push(e), sp, a) == acct(s, sp, a),
    decreases s.len(),
{
    let s2 = s.push(e);
    if s.len() == 0 {
        assert(s2.len() == 1);
        assert(s2[0] == e);
        assert(!entry_matches(s2[0], sp, a));
        assert(s2.drop_first() =~= Seq::<AccountEntry>::empty());
        assert(acct(s2, sp, a) == acct(s2.drop_first(), sp, a));
        assert(acct(s2.drop_first(), sp, a) is None);
        assert(acct(s, sp, a) is None);
    } else {
        assert(s2[0] == s[0]);
        if !entry_matches(s[0], sp, a) {
            assert(s2.drop_first() =~= s.drop_first().push(e));
            lemma_acct_push_frame(s.drop_first(), e, sp, a);
            assert(acct(s2, sp, a) == acct(s2.drop_first(), sp, a));
            assert(acct(s, sp, a) == acct(s.drop_first(), sp, a));
        } else {
            assert(acct(s2, sp, a) == Option::Some(entry_v(s2[0])));
            assert(acct(s, sp, a) == Option::Some(entry_v(s[0])));
        }
    }
}

fn clone_opt_bytes(o: &Option<Vec<u8>>) -> (r: Option<Vec<u8>>)
    ensures
        crate::types::opt_view(r) == crate::types::opt_view(*o),
{
    match o {
        Option::None => Option::None,
        Option::Some(v) => Option::Some(copy_bytes(v)),
    }
}

impl Ledger {
    /// An empty state where fresh accounts start at `start_nonce`.
    pub fn new(start_nonce: u128) -> (r: Ledger)
        ensures
            r.wf(),
            r.start_nonce == start_nonce,
            forall|sp: Space, a: Seq<u8>| acct(r.entries@, sp, a) is None,
    {
        let l = Ledger { entries: Vec::new(), start_nonce };
        proof {
            assert forall|sp: Space, a: Seq<u8>| acct(l.entries@, sp, a) is None by {
                lemma_acct_absent(l.entries@, sp, a);
            }
        }
        l
    }

    /// Index of the entry under the key, if one exists.
    fn find(&self, sp: Space, a: &Vec<u8>) -> (r: Option<usize>)
        requires
            self.wf(),
        ensures
            match r {
                Option::Some(i) => i < self.entries@.len() && entry_matches(
                    self.entries@[i as int],
                    sp,
                    a@,
                ) && acct(self.entries@, sp, a@) == Option::Some(entry_v(self.entries@[i as int])),
                Option::None => acct(self.entries@, sp, a@) is None,
            },
    {
        let n = self.entries.len();
        let mut i: usize = 0;
        while i < n
            invariant
                n == self.entries@.len(),
                i <= n,
                self.wf(),
                forall|j: int| 0 <= j < i ==> !entry_matches(#[trigger] self.entries@[j], sp, a@),
            decreases n - i,
        {
            let e = &self.entries[i];
            let same_space = match (e.space, sp) {
                (Space::Native, Space::Native) => true,
                (Space::Ethereum, Space::Ethereum) => true,
                _ => false,
            };
            if same_space && bytes_eq(&e.addr, a) {
                proof {
                    lemma_acct_found(self.entries@, sp, a@, i as int);
                }
                return Option::Some(i);
            }
            i = i + 1;
        }
        proof {
            lemma_acct_absent(self.entries@, sp, a@);
        }
        Option::None
    }

    /// Balance of the account; 0 when absent.
    pub fn balance(&self, sp: Space, a: &Vec<u8>) -> (r: u128)
        requires
            self.wf(),
        ensures
            r == spec_balance(*self, sp, a@),
    {
        match self.find(sp, a) {
            Option::Some(i) => self.entries[i].balance,
            Option::None => 0,
        }
    }

    /// Nonce of the account; the start nonce when absent.
    pub fn nonce(&self, sp: Space, a: &Vec<u8>) -> (r: u128)
        requires
            self.wf(),
        ensures
            r == spec_nonce(*self, sp, a@),
    {
        match self.find(sp, a) {
            Option::Some(i) => self.entries[i].nonce,
            Option::None => self.start_nonce,
        }
    }

    /// A copy of the account's code, if it carries any.
    pub fn code(&self, sp: Space, a: &Vec<u8>) -> (r: Option<Vec<u8>>)
        requires
            self.wf(),
        ensures
            crate::types::opt_view(r) == spec_code(*self, sp, a@),
    {
        match self.find(sp, a) {
            Option::Some(i) => clone_opt_bytes(&self.entries[i].code),
            Option::None => Option::None,
        }
    }

    /// The keccak digest of the account's code, if it carries any.
    pub fn code_hash(&self, sp: Space, a: &Vec<u8>) -> (r: Option<Vec<u8>>)
        requires
            self.wf(),
        ensures
            match spec_code(*self, sp, a@) {
                Option::None => r is None,
                Option::Some(c) => r is Some && r.unwrap()@ == keccak_of(c),
            },
    {
        match self.find(sp, a) {
            Option::Some(i) => match &self.entries[i].code {
                Option::Some(c) => Option::Some(keccak_bytes(c)),
                Option::None => Option::None,
            },
            Option::None => Option::None,
        }
    }

    /// Whether the account exists and is not economically null.
    pub fn exists_and_not_null(&self, sp: Space, a: &Vec<u8>) -> (r: bool)
        requires
            self.wf(),
        ensures
            r == spec_active(*self, sp, a@),
    {
        match self.find(sp, a) {
            Option::Some(i) => {
                let e = &self.entries[i];
                e.balance > 0 || e.nonce != self.start_nonce || e.code.is_some()
            },
            Option::None => false,
        }
    }

    /// Creates or overwrites the account under the key.
    pub fn set_account(&mut self, sp: Space, a: &Vec<u8>, balance: u128, nonce: u128, code: Option<Vec<u8>>)
        requires
            old(self).wf(),
        ensures
            final(self).wf(),
            final(self).start_nonce == old(self).start_nonce,
            acct(final(self).entries@, sp, a@) == Option::Some(
                AccountV { balance, nonce, code: crate::types::opt_view(code) },
            ),
            forall|sp2: Space, a2: Seq<u8>|
                !(sp2 == sp && a2 == a@) ==> acct(final(self).entries@, sp2, a2) == acct(
                    old(self).entries@,
                    sp2,
                    a2,
                ),
    {
        let e = AccountEntry { space: sp, addr: copy_bytes(a), balance, nonce, code };
        match self.find(sp, a) {
            Option::Some(i) => {
                proof {
                    lemma_acct_update(self.entries@, i as int, e);
                }
                self.entries.set(i, e);
            },
            Option::None => {
                proof {
                    assert forall|j: int| 0 <= j < self.entries@.len() implies !entry_matches(
                        #[trigger] self.entries@[j],
                        sp,
                        a@,
                    ) by {
                        if entry_matches(self.entries@[j], sp, a@) {
                            lemma_acct_found_exists(self.entries@, sp, a@, j);
                        }
                    }
                    lemma_acct_push(self.entries@, e);
                }
                self.entries.push(e);
            },
        }
    }

    /// Moves `value` between two distinct accounts, creating the target
    /// when absent; balances alone change, and only at the two keys.
    pub fn transfer_balance(&mut self, from_sp: Space, from_a: &Vec<u8>, to_sp: Space, to_a: &Vec<u8>, value: u128)
        requires
            old(self).wf(),
            !(from_sp == to_sp && from_a@ == to_a@),
            spec_balance(*old(self), from_sp, from_a@) >= value,
            spec_balance(*old(self), to_sp, to_a@) + value <= u128::MAX,
        ensures
            final(self).wf(),
            final(self).start_nonce == old(self).start_nonce,
            spec_balance(*final(self), from_sp, from_a@) == spec_balance(
                *old(self),
                from_sp,
                from_a@,
            ) - value,
            spec_balance(*final(self), to_sp, to_a@) == spec_balance(*old(self), to_sp, to_a@)
                + value,
            forall|sp: Space, a: Seq<u8>|
                !(sp == from_sp && a == from_a@) && !(sp == to_sp && a == to_a@)
                    ==> acct(#[trigger] final(self).entries@, sp, a) == acct(
                    old(self).entries@,
                    sp,
                    a,
                ),
            forall|sp: Space, a: Seq<u8>|
                spec_nonce(*final(self), sp, a) == spec_nonce(*old(self), sp, a),
            forall|sp: Space, a: Seq<u8>|
                spec_code(*final(self), sp, a) == spec_code(*old(self), sp, a),
    {
        // Debit the source. An absent source owes nothing: value is 0.
        match self.find(from_sp, from_a) {
            Option::Some(i) => {
                let e = &self.entries[i];
                let e2 = AccountEntry {
                    space: from_sp,
                    addr: copy_bytes(from_a),
                    balance: e.balance - value,
                    nonce: e.nonce,
                    code: clone_opt_bytes(&e.code),
                };
                proof {
                    lemma_acct_update(self.entries@, i as int, e2);
                }
                self.entries.set(i, e2);
            },
            Option::None => {},
        }
        // Credit the target, creating it when absent.
        match self.find(to_sp, to_a) {
            Option::Some(i) => {
                let e = &self.entries[i];
                let e2 = AccountEntry {
                    space: to_sp,
                    addr: copy_bytes(to_a),
                    balance: e.balance + value,
                    nonce: e.nonce,
                    code: clone_opt_bytes(&e.code),
                };
                proof {
                    lemma_acct_update(self.entries@, i as int, e2);
                }
                self.entries.set(i, e2);
            },
            Option::None => {
                let e2 = AccountEntry {
                    space: to_sp,
                    addr: copy_bytes(to_a),
                    balance: value,
                    nonce: self.start_nonce,
                    code: Option::None,
                };
                proof {
                    assert forall|j: int| 0 <= j < self.entries@.len() implies !entry_matches(
                        #[trigger] self.entries@[j],
                        to_sp,
                        to_a@,
                    ) by {
                        if entry_matches(self.entries@[j], to_sp, to_a@) {
                            lemma_acct_found_exists(self.entries@, to_sp, to_a@, j);
                        }
                    }
                    lemma_acct_push(self.entries@, e2);
                }
                self.entries.push(e2);
            },
        }
    }

    /// Bumps the account's nonce by one, creating the account at the start
    /// nonce when absent; nonces alone change, and only at this key.
    pub fn inc_nonce(&mut self, sp: Space, a: &Vec<u8>)
        requires
            old(self).wf(),
            spec_nonce(*old(self), sp, a@) < u128::MAX,
        ensures
            final(self).wf(),
            final(self).start_nonce == old(self).start_nonce,
            spec_nonce(*final(self), sp, a@) == spec_nonce(*old(self), sp, a@) + 1,
            forall|sp2: Space, a2: Seq<u8>|
                !(sp2 == sp && a2 == a@) ==> acct(#[trigger] final(self).entries@, sp2, a2) == acct(
                    old(self).entries@,
                    sp2,
                    a2,
                ),
            forall|sp2: Space, a2: Seq<u8>|
                spec_balance(*final(self), sp2, a2) == spec_balance(*old(self), sp2, a2),
            forall|sp2: Space, a2: Seq<u8>|
                spec_code(*final(self), sp2, a2) == spec_code(*old(self), sp2, a2),
    {
        match self.find(sp, a) {
            Option::Some(i) => {
                let e = &self.entries[i];
                let e2 = AccountEntry {
                    space: sp,
                    addr: copy_bytes(a),
                    balance: e.balance,
                    nonce: e.nonce + 1,
                    code: clone_opt_bytes(&e.code),
                };
                proof {
                    lemma_acct_update(self.entries@, i as int, e2);
                }
                self.entries.set(i, e2);
            },
            Option::None => {
                let e2 = AccountEntry {
                    space: sp,
                    addr: copy_bytes(a),
                    balance: 0,
                    nonce: self.start_nonce + 1,
                    code: Option::None,
                };
                proof {
                    assert forall|j: int| 0 <= j < self.entries@.len() implies !entry_matches(
                        #[trigger] self.entries@[j],
                        sp,
                        a@,
                    ) by {
                        if entry_matches(self.entries@[j], sp, a@) {
                            lemma_acct_found_exists(self.entries@, sp, a@, j);
                        }
                    }
                    lemma_acct_push(self.entries@, e2);
                }
                self.entries.push(e2);
            },
        }
    }
}

/// A matching entry at any index means the lookup succeeds.
proof fn lemma_acct_found_exists(s: Seq<AccountEntry>, sp: Space, a: Seq<u8>, j: int)
    requires
        0 <= j < s.len(),
        entry_matches(s[j], sp, a),
    ensures
        acct(s, sp, a) is Some,
    decreases j,
{
    if j > 0 && !entry_matches(s[0], sp, a) {
        assert(s.drop_first()[j - 1] == s[j]);
        lemma_acct_found_exists(s.drop_first(), sp, a, j - 1);
    }
}

} // verus!
