use vstd::prelude::*;

use crate::address_id::{u256, AddressId, AddressKey};

verus! {

/// The address-to-account map that `entries` stands for: a later entry for a key wins.
pub open spec fn map_of(entries: Seq<(AddressId, u256)>) -> Map<AddressKey, u256>
    decreases entries.len(),
{
    if entries.len() == 0 {
        Map::empty()
    } else {
        map_of(entries.drop_last()).insert(entries.last().0.key(), entries.last().1)
    }
}

/// The bytes of each account of `accounts`, in order.
pub open spec fn account_bytes(accounts: Seq<u256>) -> Seq<Seq<u8>> {
    accounts.map_values(|a: u256| a.bytes@)
}

/// No two entries share a key.
pub open spec fn keys_unique(entries: Seq<(AddressId, u256)>) -> bool {
    forall|i: int, j: int|
        0 <= i < j < entries.len() ==> #[trigger] entries[i].0.key() != #[trigger] entries[j].0.key()
}

proof fn lemma_map_of(entries: Seq<(AddressId, u256)>)
    requires
        keys_unique(entries),
    ensures
        map_of(entries).dom().finite(),
        map_of(entries).dom().len() == entries.len(),
        forall|k: AddressKey|
            #[trigger] map_of(entries).contains_key(k) <==> exists|i: int|
                0 <= i < entries.len() && entries[i].0.key() == k,
        forall|i: int|
            0 <= i < entries.len() ==> #[trigger] map_of(entries)[entries[i].0.key()] == entries[i].1,
    decreases entries.len(),
{
    if entries.len() > 0 {
        let init = entries.drop_last();
        assert(keys_unique(init));
        lemma_map_of(init);
        let n = entries.len() - 1;
        assert forall|k: AddressKey| #[trigger] map_of(entries).contains_key(k) <==> exists|i: int|
            0 <= i < entries.len() && entries[i].0.key() == k by {
            if map_of(init).contains_key(k) {
                let i = choose|i: int| 0 <= i < init.len() && init[i].0.key() == k;
                assert(entries[i].0.key() == k);
            }
            if exists|i: int| 0 <= i < entries.len() && entries[i].0.key() == k {
                let i = choose|i: int| 0 <= i < entries.len() && entries[i].0.key() == k;
                if i < n {
                    assert(init[i].0.key() == k);
                }
            }
        }
        assert forall|i: int| 0 <= i < entries.len() implies #[trigger] map_of(entries)[entries[i].0.key()]
            == entries[i].1 by {
            if i < n {
                assert(init[i] == entries[i]);
                assert(entries[i].0.key() != entries[n].0.key());
            }
        }
        assert(!map_of(init).contains_key(entries[n].0.key())) by {
            if map_of(init).contains_key(entries[n].0.key()) {
                let i = choose|i: int| 0 <= i < init.len() && init[i].0.key() == entries[n].0.key();
                assert(entries[i].0.key() == entries[n].0.key());
            }
        }
    }
}

/// Which account each known address belongs to.
pub struct AddressRegistry {
    address_to_account: Vec<(AddressId, u256)>,
}

impl AddressRegistry {
    pub closed spec fn wf(&self) -> bool {
        keys_unique(self.address_to_account@)
    }

    /// The account of each registered address, by the address's key.
    pub closed spec fn view(&self) -> Map<AddressKey, u256> {
        map_of(self.address_to_account@)
    }

    /// The accounts that some address belongs to, by their bytes.
    pub open spec fn accounts(&self) -> Set<Seq<u8>> {
        Set::new(|b: Seq<u8>| exists|k: AddressKey| self@.contains_key(k) && self@[k].bytes@ == b)
    }

    /// A registry holds finitely many addresses.
    pub proof fn lemma_finite(&self)
        requires
            self.wf(),
        ensures
            self@.dom().finite(),
    {
        lemma_map_of(self.address_to_account@);
    }

    /// An empty registry.
    pub fn new() -> (r: Self)
        ensures
            r.wf(),
            r@ == Map::<AddressKey, u256>::empty(),
            r@.dom().finite(),
    {
        AddressRegistry { address_to_account: Vec::new() }
    }

    fn position_of(&self, address_id: &AddressId) -> (r: Option<usize>)
        requires
            self.wf(),
        ensures
            r is None ==> !self@.contains_key(address_id.key()),
            r matches Some(i) ==> i < self.address_to_account@.len()
                && self.address_to_account@[i as int].0.key() == address_id.key(),
    {
        proof {
            lemma_map_of(self.address_to_account@);
        }
        let mut i: usize = 0;
        while i < self.address_to_account.len()
            invariant
                i <= self.address_to_account@.len(),
                forall|j: int| 0 <= j < i ==> #[trigger] self.address_to_account@[j].0.key() != address_id.key(),
            decreases self.address_to_account@.len() - i,
        {
            if self.address_to_account[i].0.eq(address_id) {
                return Some(i);
            }
            i = i + 1;
        }
        None
    }

    /// Records that `address_id` belongs to `account_id`, replacing any earlier account.
    pub fn register(&mut self, address_id: AddressId, account_id: u256)
        requires
            old(self).wf(),
        ensures
            final(self).wf(),
            final(self)@ == old(self)@.insert(address_id.key(), account_id),
            final(self)@.dom().finite(),
    {
        let ghost k = address_id.key();
        let ghost old_entries = self.address_to_account@;
        proof {
            lemma_map_of(old_entries);
        }
        match self.position_of(&address_id) {
            Some(i) => {
                self.address_to_account.set(i, (address_id, account_id));
                let ghost e = self.address_to_account@;
                assert(keys_unique(e)) by {
                    assert forall|a: int, b: int| 0 <= a < b < e.len() implies #[trigger] e[a].0.key()
                        != #[trigger] e[b].0.key() by {
                        assert(old_entries[a].0.key() != old_entries[b].0.key());
                    }
                }
                proof {
                    lemma_map_of(e);
                    assert forall|k2: AddressKey| #[trigger] map_of(e).contains_key(k2) <==> map_of(old_entries).insert(k, account_id).contains_key(k2) by {
                        if exists|j: int| 0 <= j < old_entries.len() && old_entries[j].0.key() == k2 {
                            let j = choose|j: int| 0 <= j < old_entries.len() && old_entries[j].0.key() == k2;
                            assert(e[j].0.key() == k2);
                        }
                        if exists|j: int| 0 <= j < e.len() && e[j].0.key() == k2 {
                            let j = choose|j: int| 0 <= j < e.len() && e[j].0.key() == k2;
                            if j != i {
                                assert(old_entries[j].0.key() == k2);
                            }
                        }
                    }
                    assert forall|k2: AddressKey| #[trigger] map_of(e).contains_key(k2) implies map_of(e)[k2]
                        == map_of(old_entries).insert(k, account_id)[k2] by {
                        let j = choose|j: int| 0 <= j < e.len() && e[j].0.key() == k2;
                        if j != i {
                            assert(old_entries[j] == e[j]);
                            assert(map_of(old_entries)[old_entries[j].0.key()] == old_entries[j].1);
                        }
                    }
                    assert(map_of(e) =~= map_of(old_entries).insert(k, account_id));
                }
            },
            None => {
                self.address_to_account.push((address_id, account_id));
                let ghost e = self.address_to_account@;
                assert(e.drop_last() == old_entries);
                assert(keys_unique(e)) by {
                    assert forall|a: int, b: int| 0 <= a < b < e.len() implies #[trigger] e[a].0.key()
                        != #[trigger] e[b].0.key() by {
                        if b == e.len() - 1 {
                            assert(map_of(old_entries).contains_key(old_entries[a].0.key()));
                        } else {
                            assert(old_entries[a].0.key() != old_entries[b].0.key());
                        }
                    }
                }
            },
        }
    }

    /// The account that `address_id` belongs to, if it was registered.
    pub fn find_account(&self, address_id: &AddressId) -> (r: Option<&u256>)
        requires
            self.wf(),
        ensures
            r is Some <==> self@.contains_key(address_id.key()),
            r matches Some(a) ==> *a == self@[address_id.key()],
    {
        proof {
            lemma_map_of(self.address_to_account@);
        }
        match self.position_of(address_id) {
            Some(i) => Some(&self.address_to_account[i].1),
            None => None,
        }
    }

    /// Every registered address that belongs to `account_id`, each once.
    pub fn find_addresses_for_account(&self, account_id: &u256) -> (r: Vec<&AddressId>)
        requires
            self.wf(),
        ensures
            forall|m: int|
                0 <= m < r@.len() ==> self@.contains_key(#[trigger] r@[m].key())
                    && self@[r@[m].key()].bytes@ == account_id.bytes@,
            forall|k: AddressKey|
                #[trigger] self@.contains_key(k) && self@[k].bytes@ == account_id.bytes@ ==> exists|
                    m: int,
                | 0 <= m < r@.len() && r@[m].key() == k,
            forall|m1: int, m2: int|
                0 <= m1 < m2 < r@.len() ==> #[trigger] r@[m1].key() != #[trigger] r@[m2].key(),
    {
        let ghost e = self.address_to_account@;
        proof {
            lemma_map_of(e);
        }
        let mut r: Vec<&AddressId> = Vec::new();
        let ghost mut idx: Seq<int> = Seq::empty();
        let mut i: usize = 0;
        while i < self.address_to_account.len()
            invariant
                e == self.address_to_account@,
                keys_unique(e),
                i <= e.len(),
                idx.len() == r@.len(),
                forall|m: int| 0 <= m < idx.len() ==> 0 <= #[trigger] idx[m] < i,
                forall|m1: int, m2: int| 0 <= m1 < m2 < idx.len() ==> #[trigger] idx[m1] < #[trigger] idx[m2],
                forall|m: int|
                    0 <= m < idx.len() ==> #[trigger] r@[m].key() == e[idx[m]].0.key()
                        && e[idx[m]].1.bytes@ == account_id.bytes@,
                forall|j: int|
                    0 <= j < i && (#[trigger] e[j]).1.bytes@ == account_id.bytes@ ==> exists|m: int|
                        0 <= m < idx.len() && idx[m] == j,
            decreases e.len() - i,
        {
            let ghost old_idx = idx;
            if self.address_to_account[i].1.eq(account_id) {
                r.push(&self.address_to_account[i].0);
                proof {
                    idx = idx.push(i as int);
                }
            }
            proof {
                assert forall|j: int| 0 <= j < i + 1 && (#[trigger] e[j]).1.bytes@ == account_id.bytes@
                    implies exists|m: int| 0 <= m < idx.len() && idx[m] == j by {
                    if j < i {
                        let m = choose|m: int| 0 <= m < old_idx.len() && old_idx[m] == j;
                        assert(idx[m] == j);
                    } else {
                        assert(idx[idx.len() - 1] == j);
                    }
                }
            }
            i = i + 1;
        }
        proof {
            assert forall|m: int| 0 <= m < r@.len() implies self@.contains_key(#[trigger] r@[m].key())
                && self@[r@[m].key()].bytes@ == account_id.bytes@ by {
                assert(r@[m].key() == e[idx[m]].0.key());
            }
            assert forall|k: AddressKey| #[trigger] self@.contains_key(k) && self@[k].bytes@ == account_id.bytes@
                implies exists|m: int| 0 <= m < r@.len() && r@[m].key() == k by {
                let j = choose|j: int| 0 <= j < e.len() && e[j].0.key() == k;
                assert(e[j].1.bytes@ == account_id.bytes@);
                let m = choose|m: int| 0 <= m < idx.len() && idx[m] == j;
                assert(r@[m].key() == k);
            }
            assert forall|m1: int, m2: int| 0 <= m1 < m2 < r@.len() implies #[trigger] r@[m1].key()
                != #[trigger] r@[m2].key() by {
                assert(idx[m1] < idx[m2]);
                assert(e[idx[m1]].0.key() != e[idx[m2]].0.key());
            }
        }
        r
    }

    /// The number of registered addresses.
    pub fn address_count(&self) -> (r: usize)
        requires
            self.wf(),
        ensures
            self@.dom().finite(),
            r == self@.dom().len(),
    {
        proof {
            lemma_map_of(self.address_to_account@);
        }
        self.address_to_account.len()
    }

    /// The number of distinct accounts that addresses belong to.
    pub fn account_count(&self) -> (r: usize)
        requires
            self.wf(),
        ensures
            r == self.accounts().len(),
            r <= self@.dom().len(),
            (r == 0) == (self@.dom().len() == 0),
    {
        let ghost e = self.address_to_account@;
        proof {
            lemma_map_of(e);
        }
        let mut seen: Vec<u256> = Vec::new();
        let mut i: usize = 0;
        while i < self.address_to_account.len()
            invariant
                e == self.address_to_account@,
                i <= e.len(),
                seen@.len() <= i,
                i > 0 ==> seen@.len() > 0,
                account_bytes(seen@).no_duplicates(),
                forall|b: Seq<u8>|
                    #[trigger] account_bytes(seen@).contains(b) <==> exists|j: int|
                        0 <= j < i && e[j].1.bytes@ == b,
            decreases e.len() - i,
        {
            let acct = self.address_to_account[i].1;
            let mut found = false;
            let mut s: usize = 0;
            while s < seen.len()
                invariant
                    s <= seen@.len(),
                    found ==> exists|t: int| 0 <= t < seen@.len() && seen@[t].bytes@ == acct.bytes@,
                    !found ==> forall|t: int| 0 <= t < s ==> #[trigger] seen@[t].bytes@ != acct.bytes@,
                decreases seen@.len() - s,
            {
                if seen[s].eq(&acct) {
                    found = true;
                }
                s = s + 1;
            }
            let ghost before = account_bytes(seen@);
            if !found {
                seen.push(acct);
                proof {
                    let after = account_bytes(seen@);
                    assert(after == before.push(acct.bytes@));
                    assert(!before.contains(acct.bytes@)) by {
                        if before.contains(acct.bytes@) {
                            let t = choose|t: int| 0 <= t < before.len() && before[t] == acct.bytes@;
                            assert(seen@[t].bytes@ != acct.bytes@);
                        }
                    }
                    assert forall|b: Seq<u8>| #[trigger] after.contains(b) <==> exists|j: int|
                        0 <= j < i + 1 && e[j].1.bytes@ == b by {
                        if after.contains(b) {
                            let t = choose|t: int| 0 <= t < after.len() && after[t] == b;
                            if t < before.len() {
                                assert(before[t] == b);
                                assert(before.contains(b));
                            } else {
                                assert(e[i as int].1.bytes@ == b);
                            }
                        }
                        if exists|j: int| 0 <= j < i + 1 && e[j].1.bytes@ == b {
                            let j = choose|j: int| 0 <= j < i + 1 && e[j].1.bytes@ == b;
                            if j < i {
                                assert(before.contains(b));
                                let t = choose|t: int| 0 <= t < before.len() && before[t] == b;
                                assert(after[t] == b);
                            } else {
                                assert(after[before.len() as int] == b);
                            }
                        }
                    }
                }
            } else {
                proof {
                    assert forall|b: Seq<u8>| #[trigger] before.contains(b) <==> exists|j: int|
                        0 <= j < i + 1 && e[j].1.bytes@ == b by {
                        if exists|j: int| 0 <= j < i + 1 && e[j].1.bytes@ == b {
                            let j = choose|j: int| 0 <= j < i + 1 && e[j].1.bytes@ == b;
                            if j == i {
                                let t = choose|t: int| 0 <= t < seen@.len() && seen@[t].bytes@ == acct.bytes@;
                                assert(before[t] == b);
                            }
                        }
                    }
                }
            }
            i = i + 1;
        }
        proof {
            let bs = account_bytes(seen@);
            bs.unique_seq_to_set();
            assert(bs.to_set() =~= self.accounts()) by {
                assert forall|b: Seq<u8>| bs.to_set().contains(b) <==> self.accounts().contains(b) by {
                    if bs.contains(b) {
                        let j = choose|j: int| 0 <= j < e.len() && e[j].1.bytes@ == b;
                        assert(self@.contains_key(e[j].0.key()) && self@[e[j].0.key()].bytes@ == b);
                    }
                    if self.accounts().contains(b) {
                        let k = choose|k: AddressKey| self@.contains_key(k) && self@[k].bytes@ == b;
                        let j = choose|j: int| 0 <= j < e.len() && e[j].0.key() == k;
                        assert(e[j].1.bytes@ == b);
                    }
                }
            }
        }
        seen.len()
    }
}

} // verus!
