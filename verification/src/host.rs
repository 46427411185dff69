//! The host import boundary.
//!
//! The guest requires three capabilities from its host: the calling
//! account's address, reading a stored balance into guest memory, and
//! writing a stored balance from guest memory. The host and its storage are
//! modelled here as an injected capability, `Host`, holding the sender and
//! the account table, so that the transfer operation's guarantees can be
//! stated over the stored balances and exercised against a mock backend.
//! Stored state changes through `set_balance` alone.

use vstd::prelude::*;
use crate::balance::{BALANCE_LEN, abi_balance, le_val};
use crate::guest::Guest;

verus! {

/// Width of an account address in bytes.
pub const ADDRESS_LEN: usize = 20;

/// A fixed-width byte identifier naming an account.
pub struct Address {
    bytes: Vec<u8>,
}

impl View for Address {
    type V = Seq<u8>;

    closed spec fn view(&self) -> Seq<u8> {
        self.bytes@
    }
}

impl Address {
    /// An address is exactly `ADDRESS_LEN` bytes.
    pub open spec fn wf(self) -> bool {
        self@.len() == ADDRESS_LEN
    }

    /// Forms an address from raw bytes; bytes of any other width name no
    /// account.
    pub fn new(bytes: Vec<u8>) -> (r: Option<Address>)
        ensures
            match r {
                Some(a) => a@ == bytes@ && a.wf(),
                None => bytes@.len() != ADDRESS_LEN,
            },
    {
        if bytes.len() == ADDRESS_LEN {
            Some(Address { bytes })
        } else {
            None
        }
    }

    /// Whether two addresses name the same account.
    pub fn equals(&self, other: &Address) -> (r: bool)
        ensures
            r == (self@ == other@),
    {
        bytes_eq(&self.bytes, &other.bytes)
    }
}

/// Byte-for-byte copy of a byte vector.
fn copy_bytes(src: &Vec<u8>) -> (r: Vec<u8>)
    ensures
        r@ == src@,
{
    let n = src.len();
    let mut r: Vec<u8> = Vec::new();
    let mut i: usize = 0;
    while i < n
        invariant
            i <= n,
            n == src@.len(),
            r@.len() == i,
            forall|j: int| 0 <= j < i ==> r@[j] == src@[j],
        decreases n - i,
    {
        let b = src[i];
        r.push(b);
        i = i + 1;
    }
    proof {
        assert(r@ =~= src@);
    }
    r
}

/// Whether two byte vectors hold the same bytes.
fn bytes_eq(a: &Vec<u8>, b: &Vec<u8>) -> (r: bool)
    ensures
        r == (a@ == b@),
{
    let n = a.len();
    if n != b.len() {
        proof {
            assert(a@.len() != b@.len());
        }
        return false;
    }
    let mut i: usize = 0;
    while i < n
        invariant
            i <= n,
            n == a@.len() == b@.len(),
            forall|j: int| 0 <= j < i ==> a@[j] == b@[j],
        decreases n - i,
    {
        if a[i] != b[i] {
            return false;
        }
        i = i + 1;
    }
    proof {
        assert(a@ =~= b@);
    }
    true
}

/// One stored account: its address and its balance buffer.
struct AccountRecord {
    addr: Vec<u8>,
    bal: Vec<u8>,
}

/// The host runtime as the guest sees it: the account that initiated the
/// call, and the authoritative balance store.
pub struct Host {
    sender: Vec<u8>,
    accounts: Vec<AccountRecord>,
}

impl Host {
    /// The stored account table: address bytes paired with balance bytes.
    pub closed spec fn table(self) -> Seq<(Seq<u8>, Seq<u8>)> {
        self.accounts@.map_values(|a: AccountRecord| (a.addr@, a.bal@))
    }

    /// The address of the account that initiated the current call.
    pub closed spec fn sender_spec(self) -> Seq<u8> {
        self.sender@
    }

    /// Whether storage knows the address.
    pub closed spec fn has_account(self, a: Seq<u8>) -> bool {
        exists|i: int| 0 <= i < self.table().len() && (#[trigger] self.table()[i]).0 == a
    }

    /// The position of the record holding `a`, when storage knows it.
    pub closed spec fn index_of(self, a: Seq<u8>) -> int {
        choose|i: int| 0 <= i < self.table().len() && (#[trigger] self.table()[i]).0 == a
    }

    /// The stored balance buffer of a known address.
    pub closed spec fn balance_bytes(self, a: Seq<u8>) -> Seq<u8> {
        self.table()[self.index_of(a)].1
    }

    /// `index_of` names a real record of `a` whenever storage knows `a`.
    pub proof fn lemma_index_of(self, a: Seq<u8>)
        requires
            self.has_account(a),
        ensures
            0 <= self.index_of(a) < self.table().len(),
            self.table()[self.index_of(a)].0 == a,
            self.balance_bytes(a) == self.table()[self.index_of(a)].1,
    {
    }

    /// The stored balance of a known address, as a value.
    pub open spec fn balance_of(self, a: Seq<u8>) -> nat {
        le_val(self.balance_bytes(a))
    }

    /// The storage invariant: the sender is a real address, every stored
    /// address is unique and of the fixed width, and every stored balance
    /// buffer is in ABI shape.
    pub closed spec fn wf(self) -> bool {
        &&& self.sender@.len() == ADDRESS_LEN
        &&& forall|i: int|
            0 <= i < self.table().len() ==> (#[trigger] self.table()[i]).0.len() == ADDRESS_LEN
                && abi_balance(self.table()[i].1)
        &&& forall|i: int, j: int|
            0 <= i < j < self.table().len() ==> (#[trigger] self.table()[i]).0 != (
            #[trigger] self.table()[j]).0
    }

    /// A known account's stored buffer is in ABI shape, so its value fits
    /// in 64 bits.
    pub proof fn lemma_balance_abi(self, a: Seq<u8>)
        requires
            self.wf(),
            self.has_account(a),
        ensures
            abi_balance(self.balance_bytes(a)),
            self.balance_of(a) <= u64::MAX,
    {
        crate::balance::lemma_abi_balance_fits(self.balance_bytes(a));
    }

    /// A host with the given calling account and empty storage.
    pub fn new(sender: Address) -> (h: Host)
        requires
            sender.wf(),
        ensures
            h.wf(),
            h.sender_spec() == sender@,
            h.table().len() == 0,
            forall|a: Seq<u8>| !h.has_account(a),
    {
        Host { sender: sender.bytes, accounts: Vec::new() }
    }

    /// Index of the record holding `addr`, when storage knows it.
    fn find(&self, addr: &Address) -> (r: Option<usize>)
        requires
            self.wf(),
        ensures
            match r {
                Some(i) => {
                    &&& i < self.table().len()
                    &&& self.table()[i as int].0 == addr@
                    &&& self.has_account(addr@)
                    &&& self.balance_bytes(addr@) == self.table()[i as int].1
                },
                None => !self.has_account(addr@),
            },
    {
        let n = self.accounts.len();
        let mut i: usize = 0;
        while i < n
            invariant
                i <= n,
                self.wf(),
                n == self.accounts@.len(),
                forall|k: int| 0 <= k < i ==> (#[trigger] self.table()[k]).0 != addr@,
            decreases n - i,
        {
            let rec = &self.accounts[i];
            if bytes_eq(&rec.addr, &addr.bytes) {
                proof {
                    assert(self.table()[i as int].0 == self.accounts@[i as int].addr@);
                    assert(self.table()[i as int].0 == addr@);
                    assert(self.has_account(addr@));
                    self.lemma_index_of(addr@);
                    assert(self.index_of(addr@) == i);
                }
                return Some(i);
            }
            proof {
                assert(self.table()[i as int].0 == self.accounts@[i as int].addr@);
            }
            i = i + 1;
        }
        None
    }

    /// The import that resolves the calling account: hands the guest a copy
    /// of the sender's address.
    pub fn get_sender_addr(&self) -> (r: Address)
        requires
            self.wf(),
        ensures
            r@ == self.sender_spec(),
            r.wf(),
    {
        Address { bytes: copy_bytes(&self.sender) }
    }

    /// The import that reads a stored balance into the guest buffer at
    /// `out_ptr` sized `out_len`. Status zero means exactly that the
    /// address is known and the buffer is not undersized; then the buffer
    /// holds the stored balance and no other byte of guest memory moved.
    /// On a non-zero status guest memory is untouched.
    pub fn get_balance(&self, addr: &Address, guest: &mut Guest, out_ptr: usize, out_len: usize)
        -> (status: i32)
        requires
            self.wf(),
            old(guest).wf(),
            out_ptr + out_len <= old(guest).mem_bytes().len(),
        ensures
            final(guest).wf(),
            final(guest).allocator() == old(guest).allocator(),
            final(guest).mem_bytes().len() == old(guest).mem_bytes().len(),
            (status == 0) <==> (self.has_account(addr@) && out_len >= BALANCE_LEN),
            status == 0 ==> final(guest).mem_bytes().subrange(
                out_ptr as int,
                out_ptr + BALANCE_LEN,
            ) == self.balance_bytes(addr@),
            status == 0 ==> forall|i: int|
                0 <= i < old(guest).mem_bytes().len() && !(out_ptr <= i < out_ptr + BALANCE_LEN)
                    ==> final(guest).mem_bytes()[i] == old(guest).mem_bytes()[i],
            status != 0 ==> final(guest).mem_bytes() == old(guest).mem_bytes(),
    {
        if out_len < BALANCE_LEN {
            return 1;
        }
        match self.find(addr) {
            None => 1,
            Some(i) => {
                let rec = &self.accounts[i];
                proof {
                    assert(self.table()[i as int].1 == rec.bal@);
                    assert(abi_balance(rec.bal@));
                }
                guest.write_bytes(out_ptr, &rec.bal);
                proof {
                    assert(final(guest).mem_bytes().subrange(out_ptr as int, out_ptr + BALANCE_LEN)
                        =~= rec.bal@);
                }
                0
            },
        }
    }

    /// The import that commits the guest buffer at `buf_ptr` as the new
    /// stored balance for `addr` — the only way stored state changes. The
    /// named account afterwards holds exactly those bytes; every other
    /// account is exactly as it was. Per the shared ABI the guest only
    /// passes buffers of the fixed width in ABI shape, from memory it owns.
    pub fn set_balance(&mut self, addr: &Address, guest: &Guest, buf_ptr: usize, buf_len: usize)
        requires
            old(self).wf(),
            guest.wf(),
            addr.wf(),
            buf_len == BALANCE_LEN,
            buf_ptr + buf_len <= guest.mem_bytes().len(),
            abi_balance(guest.mem_bytes().subrange(buf_ptr as int, buf_ptr + BALANCE_LEN)),
        ensures
            final(self).wf(),
            final(self).sender_spec() == old(self).sender_spec(),
            final(self).has_account(addr@),
            final(self).balance_bytes(addr@) == guest.mem_bytes().subrange(
                buf_ptr as int,
                buf_ptr + BALANCE_LEN,
            ),
            forall|a: Seq<u8>|
                a != addr@ ==> (final(self).has_account(a) <==> old(self).has_account(a)),
            forall|a: Seq<u8>|
                a != addr@ && old(self).has_account(a) ==> final(self).balance_bytes(a) == old(
                    self,
                ).balance_bytes(a),
    {
        let bytes = guest.read_bytes(buf_ptr, buf_len);
        self.upsert(addr, bytes);
    }

    /// Stores `bal` as the balance of `addr`, updating the record in place
    /// or appending a fresh one.
    fn upsert(&mut self, addr: &Address, bal: Vec<u8>)
        requires
            old(self).wf(),
            addr.wf(),
            abi_balance(bal@),
        ensures
            final(self).wf(),
            final(self).sender_spec() == old(self).sender_spec(),
            final(self).has_account(addr@),
            final(self).balance_bytes(addr@) == bal@,
            forall|a: Seq<u8>|
                a != addr@ ==> (final(self).has_account(a) <==> old(self).has_account(a)),
            forall|a: Seq<u8>|
                a != addr@ && old(self).has_account(a) ==> final(self).balance_bytes(a) == old(
                    self,
                ).balance_bytes(a),
    {
        let ghost t0 = self.table();
        let ghost b = bal@;
        match self.find(addr) {
            Some(i) => {
                let rec = AccountRecord { addr: copy_bytes(&addr.bytes), bal };
                self.accounts[i] = rec;
                proof {
                    assert(self.table() =~= t0.update(i as int, (addr@, b)));
                    self.lemma_upsert_update(t0, *old(self), addr@, b, i as int);
                }
            },
            None => {
                let rec = AccountRecord { addr: copy_bytes(&addr.bytes), bal };
                self.accounts.push(rec);
                proof {
                    assert(self.table() =~= t0.push((addr@, b)));
                    self.lemma_upsert_push(t0, *old(self), addr@, b);
                }
            },
        }
    }

    /// What replacing record `i` (the record of `a`) does to the table's
    /// meaning.
    proof fn lemma_upsert_update(self, t0: Seq<(Seq<u8>, Seq<u8>)>, pre: Host, a: Seq<u8>, b: Seq<u8>, i: int)
        requires
            pre.wf(),
            t0 == pre.table(),
            0 <= i < t0.len(),
            t0[i].0 == a,
            a.len() == ADDRESS_LEN,
            abi_balance(b),
            self.sender == pre.sender,
            self.table() == t0.update(i, (a, b)),
        ensures
            self.wf(),
            self.has_account(a),
            self.balance_bytes(a) == b,
            forall|x: Seq<u8>| x != a ==> (self.has_account(x) <==> pre.has_account(x)),
            forall|x: Seq<u8>|
                x != a && pre.has_account(x) ==> self.balance_bytes(x) == pre.balance_bytes(x),
    {
        let t1 = self.table();
        assert(t1.len() == t0.len());
        assert(forall|k: int| 0 <= k < t1.len() && k != i ==> t1[k] == t0[k]);
        assert(t1[i] == (a, b));
        assert forall|k: int, l: int| 0 <= k < l < t1.len() implies (#[trigger] t1[k]).0 != (
        #[trigger] t1[l]).0 by {
            assert(t0[k].0 == t1[k].0 && t0[l].0 == t1[l].0);
        }
        assert(self.wf());
        assert(self.has_account(a));
        self.lemma_index_of(a);
        assert(self.index_of(a) == i);
        assert forall|x: Seq<u8>| x != a implies (self.has_account(x) <==> pre.has_account(x)) by {
            if self.has_account(x) {
                self.lemma_index_of(x);
                let k = self.index_of(x);
                assert(k != i);
                assert(t0[k].0 == x);
                assert(pre.has_account(x));
            }
            if pre.has_account(x) {
                pre.lemma_index_of(x);
                let k = pre.index_of(x);
                assert(k != i);
                assert(t1[k].0 == x);
                assert(self.has_account(x));
            }
        }
        assert forall|x: Seq<u8>| x != a && pre.has_account(x) implies self.balance_bytes(x)
            == pre.balance_bytes(x) by {
            pre.lemma_index_of(x);
            assert(self.has_account(x));
            self.lemma_index_of(x);
            let k = self.index_of(x);
            let l = pre.index_of(x);
            assert(k != i && l != i);
            assert(t0[k].0 == x);
            assert(k == l);
        }
    }

    /// What appending a record for a fresh address does to the table's
    /// meaning.
    proof fn lemma_upsert_push(self, t0: Seq<(Seq<u8>, Seq<u8>)>, pre: Host, a: Seq<u8>, b: Seq<u8>)
        requires
            pre.wf(),
            t0 == pre.table(),
            !pre.has_account(a),
            a.len() == ADDRESS_LEN,
            abi_balance(b),
            self.sender == pre.sender,
            self.table() == t0.push((a, b)),
        ensures
            self.wf(),
            self.has_account(a),
            self.balance_bytes(a) == b,
            forall|x: Seq<u8>| x != a ==> (self.has_account(x) <==> pre.has_account(x)),
            forall|x: Seq<u8>|
                x != a && pre.has_account(x) ==> self.balance_bytes(x) == pre.balance_bytes(x),
    {
        let t1 = self.table();
        let n = t0.len() as int;
        assert(t1.len() == n + 1);
        assert(forall|k: int| 0 <= k < n ==> t1[k] == t0[k]);
        assert(t1[n] == (a, b));
        assert forall|k: int, l: int| 0 <= k < l < t1.len() implies (#[trigger] t1[k]).0 != (
        #[trigger] t1[l]).0 by {
            if l < n {
                assert(t0[k].0 == t1[k].0 && t0[l].0 == t1[l].0);
            } else {
                assert(t1[l].0 == a);
                assert(t0[k].0 == t1[k].0);
                assert(t0[k].0 != a);
            }
        }
        assert(self.wf());
        assert(self.has_account(a));
        self.lemma_index_of(a);
        let j = self.index_of(a);
        assert(j == n) by {
            if j < n {
                assert(t0[j].0 == a);
                assert(pre.has_account(a));
            }
        }
        assert forall|x: Seq<u8>| x != a implies (self.has_account(x) <==> pre.has_account(x)) by {
            if self.has_account(x) {
                self.lemma_index_of(x);
                let k = self.index_of(x);
                assert(k != n);
                assert(t0[k].0 == x);
                assert(pre.has_account(x));
            }
            if pre.has_account(x) {
                pre.lemma_index_of(x);
                let k = pre.index_of(x);
                assert(t1[k].0 == x);
                assert(self.has_account(x));
            }
        }
        assert forall|x: Seq<u8>| x != a && pre.has_account(x) implies self.balance_bytes(x)
            == pre.balance_bytes(x) by {
            pre.lemma_index_of(x);
            assert(self.has_account(x));
            self.lemma_index_of(x);
            let k = self.index_of(x);
            let l = pre.index_of(x);
            assert(k != n);
            assert(t0[k].0 == x);
            assert(k == l);
        }
    }

    /// Gives an account a stored balance directly — how a mock backend or
    /// an embedding seeds the ledger before a call.
    pub fn fund(&mut self, addr: &Address, amount: u64)
        requires
            old(self).wf(),
            addr.wf(),
        ensures
            final(self).wf(),
            final(self).sender_spec() == old(self).sender_spec(),
            final(self).has_account(addr@),
            final(self).balance_of(addr@) == amount,
            forall|a: Seq<u8>|
                a != addr@ ==> (final(self).has_account(a) <==> old(self).has_account(a)),
            forall|a: Seq<u8>|
                a != addr@ && old(self).has_account(a) ==> final(self).balance_bytes(a) == old(
                    self,
                ).balance_bytes(a),
    {
        let bal = crate::balance::encode_balance(amount);
        self.upsert(addr, bal);
    }

    /// Reads an account's stored balance as a value; `None` exactly when
    /// storage does not know the address.
    pub fn balance(&self, addr: &Address) -> (r: Option<u64>)
        requires
            self.wf(),
        ensures
            match r {
                Some(v) => self.has_account(addr@) && v as nat == self.balance_of(addr@),
                None => !self.has_account(addr@),
            },
    {
        match self.find(addr) {
            None => None,
            Some(i) => {
                let rec = &self.accounts[i];
                proof {
                    assert(self.table()[i as int].1 == rec.bal@);
                    assert(abi_balance(rec.bal@));
                    assert(rec.bal@.subrange(0, BALANCE_LEN as int) =~= rec.bal@);
                    self.lemma_balance_abi(addr@);
                }
                match crate::balance::decode_balance(&rec.bal, 0) {
                    Some(v) => Some(v),
                    None => {
                        proof {
                            crate::balance::lemma_abi_balance_fits(rec.bal@);
                            assert(false);
                        }
                        None
                    },
                }
            },
        }
    }
}

} // verus!
