//! The transfer operation: the guest's exported entry point.
//!
//! Validate-then-apply: both new balances are computed and fully written
//! into guest memory before either `set_balance` is issued, so no fault
//! between the two writes can leave a negative or double-spent balance.
//! A successful transfer moves exactly the amount — the total of the two
//! balances is conserved — and any other outcome leaves every stored
//! balance untouched.
//!
//! A transfer whose destination is the sender itself debits and credits one
//! account by the same amount: it validates as usual and, on success,
//! leaves storage unchanged.

use vstd::prelude::*;
use crate::balance::{BALANCE_LEN, le_val};
use crate::guest::Guest;
use crate::host::{ADDRESS_LEN, Address, Host};
use crate::trap::{Fault, Trap};

verus! {

/// The sentinel a completed (non-trapping) call reports.
#[derive(Clone, Copy, Debug, PartialEq, Eq, Structural)]
pub enum TransferStatus {
    /// Both balances validated and both writes were issued.
    Success,
    /// The sender's balance is smaller than the amount.
    Underflow,
    /// The destination's balance plus the amount exceeds the representable
    /// range.
    Overflow,
    /// A storage import reported failure; no write was attempted.
    HostCommunication,
}

/// What one invocation of the entry point came to: an ordinary status
/// sentinel, or the trap barrier.
#[derive(Clone, Copy, Debug, PartialEq, Eq, Structural)]
pub enum TransferResult {
    Returned(TransferStatus),
    Trapped(Trap),
}

/// Status sentinel for a completed transfer.
pub const STATUS_SUCCESS: i32 = 11;

/// Status sentinel for a transfer rejected for insufficient sender balance.
pub const STATUS_UNDERFLOW: i32 = -1;

/// Status sentinel for a transfer rejected because the destination balance
/// would leave the representable range.
pub const STATUS_OVERFLOW: i32 = -2;

/// Status sentinel for a storage import that reported failure.
pub const STATUS_HOST_ERROR: i32 = -3;

/// The sentinel each status is reported as across the binary boundary.
pub open spec fn status_code_spec(s: TransferStatus) -> int {
    match s {
        TransferStatus::Success => STATUS_SUCCESS as int,
        TransferStatus::Underflow => STATUS_UNDERFLOW as int,
        TransferStatus::Overflow => STATUS_OVERFLOW as int,
        TransferStatus::HostCommunication => STATUS_HOST_ERROR as int,
    }
}

/// Maps a status to its sentinel value.
pub fn status_code(s: TransferStatus) -> (r: i32)
    ensures
        r == status_code_spec(s),
{
    match s {
        TransferStatus::Success => STATUS_SUCCESS,
        TransferStatus::Underflow => STATUS_UNDERFLOW,
        TransferStatus::Overflow => STATUS_OVERFLOW,
        TransferStatus::HostCommunication => STATUS_HOST_ERROR,
    }
}

/// The validation rule, over mathematical values: underflow if the amount
/// exceeds the sender's balance, otherwise overflow if the credited
/// destination balance would not be representable, otherwise success.
pub open spec fn validate(sender_balance: nat, destination_balance: nat, amount: nat)
    -> TransferStatus {
    if amount > sender_balance {
        TransferStatus::Underflow
    } else if destination_balance + amount > u64::MAX {
        TransferStatus::Overflow
    } else {
        TransferStatus::Success
    }
}

/// The sender's balance after a validated transfer.
pub open spec fn debited(sender_balance: nat, amount: nat) -> nat {
    (sender_balance - amount) as nat
}

/// The destination's balance after a validated transfer.
pub open spec fn credited(destination_balance: nat, amount: nat) -> nat {
    destination_balance + amount
}

/// Whether the caller-supplied argument regions lie inside guest memory
/// and the amount has the fixed balance width.
pub open spec fn args_ok(g: Guest, dest_ptr: usize, amount_ptr: usize, amount_len: usize) -> bool {
    &&& dest_ptr + ADDRESS_LEN <= g.mem_bytes().len()
    &&& amount_len == BALANCE_LEN
    &&& amount_ptr + BALANCE_LEN <= g.mem_bytes().len()
}

/// The destination address named by the argument region.
pub open spec fn dest_of(g: Guest, dest_ptr: usize) -> Seq<u8> {
    g.mem_bytes().subrange(dest_ptr as int, dest_ptr + ADDRESS_LEN)
}

/// The amount named by the argument region, as a value.
pub open spec fn amount_of(g: Guest, amount_ptr: usize) -> nat {
    le_val(g.mem_bytes().subrange(amount_ptr as int, amount_ptr + BALANCE_LEN))
}

/// Whether the instance has room for the two scratch balance buffers the
/// operation allocates.
pub open spec fn scratch_ok(g: Guest) -> bool {
    2 * BALANCE_LEN <= g.free_space()
}

/// Law: a validated transfer conserves value — what the sender loses is
/// exactly what the destination gains.
pub proof fn lemma_conservation(sender_balance: nat, destination_balance: nat, amount: nat)
    requires
        validate(sender_balance, destination_balance, amount) == TransferStatus::Success,
    ensures
        debited(sender_balance, amount) + credited(destination_balance, amount) == sender_balance
            + destination_balance,
{
}

/// Law: the underflow boundary is exact — transferring the whole sender
/// balance succeeds and empties the account, while one unit more is
/// rejected as underflow. (The success half asks that the two balances
/// together be representable, else the overflow rule rejects first.)
pub proof fn lemma_underflow_boundary(sender_balance: nat, destination_balance: nat)
    requires
        destination_balance + sender_balance <= u64::MAX,
    ensures
        validate(sender_balance, destination_balance, sender_balance) == TransferStatus::Success,
        debited(sender_balance, sender_balance) == 0,
        validate(sender_balance, destination_balance, sender_balance + 1)
            == TransferStatus::Underflow,
{
}

/// Law: the overflow boundary is exact — crediting the destination up to
/// exactly the largest representable value succeeds, while one unit beyond
/// is rejected as overflow. (The overflow half asks that the sender could
/// still cover one unit more, else the underflow rule rejects first.)
pub proof fn lemma_overflow_boundary(sender_balance: nat, destination_balance: nat, amount: nat)
    requires
        amount + 1 <= sender_balance,
        destination_balance + amount == u64::MAX,
    ensures
        validate(sender_balance, destination_balance, amount) == TransferStatus::Success,
        validate(sender_balance, destination_balance, amount + 1) == TransferStatus::Overflow,
{
}

/// The exported entry point: transfers the amount at `amount_ptr` from the
/// calling account to the account named at `dest_ptr`.
///
/// The contract pins every outcome:
/// - malformed argument regions raise the trap barrier (`InvalidAccess`);
/// - with sound arguments, too little free memory for the scratch buffers
///   raises the trap barrier (`AllocationFailure`);
/// - otherwise, an unknown sender or destination is reported as
///   `HostCommunication`, exactly when one of the two is unknown;
/// - otherwise the result is exactly `validate` of the stored balances and
///   the amount, and on `Success` the sender holds its balance less the
///   amount, the destination its balance plus the amount, the total of the
///   two is conserved, and no other account moved.
///
/// Any outcome but `Success` leaves stored state exactly as it was, and no
/// byte of guest memory below the allocations the caller already held is
/// ever disturbed.
pub fn transfer(
    host: &mut Host,
    guest: &mut Guest,
    dest_ptr: usize,
    amount_ptr: usize,
    amount_len: usize,
) -> (r: TransferResult)
    requires
        old(host).wf(),
        old(guest).wf(),
    ensures
        final(host).wf(),
        final(guest).wf(),
        final(host).sender_spec() == old(host).sender_spec(),
        final(guest).mem_bytes().len() == old(guest).mem_bytes().len(),
        forall|i: int|
            0 <= i < old(guest).allocated_end()
                ==> final(guest).mem_bytes()[i] == old(guest).mem_bytes()[i],
        r != TransferResult::Returned(TransferStatus::Success) ==> *final(host) == *old(host),
        ({
            let sender = old(host).sender_spec();
            let dest = dest_of(*old(guest), dest_ptr);
            let amount = amount_of(*old(guest), amount_ptr);
            let ok_args = args_ok(*old(guest), dest_ptr, amount_ptr, amount_len);
            let ok_alloc = scratch_ok(*old(guest));
            let known = old(host).has_account(sender) && old(host).has_account(dest);
            let sb = old(host).balance_of(sender);
            let db = old(host).balance_of(dest);
            match r {
                TransferResult::Trapped(t) => (t.cause == Fault::InvalidAccess && !ok_args) || (
                t.cause == Fault::AllocationFailure && ok_args && !ok_alloc),
                TransferResult::Returned(s) => {
                    &&& ok_args
                    &&& ok_alloc
                    &&& (s == TransferStatus::HostCommunication <==> !known)
                    &&& (known ==> s == validate(sb, db, amount))
                    &&& (s == TransferStatus::Success ==> {
                        &&& (dest == sender ==> *final(host) == *old(host))
                        &&& (dest != sender ==> {
                            &&& final(host).has_account(sender)
                            &&& final(host).balance_of(sender) == debited(sb, amount)
                            &&& final(host).has_account(dest)
                            &&& final(host).balance_of(dest) == credited(db, amount)
                            &&& final(host).balance_of(sender) + final(host).balance_of(dest)
                                == sb + db
                            &&& forall|a: Seq<u8>|
                                a != sender && a != dest ==> (final(host).has_account(a) <==> old(host).has_account(a))
                            &&& forall|a: Seq<u8>|
                                a != sender && a != dest && old(host).has_account(a)
                                    ==> final(host).balance_bytes(a) == old(host).balance_bytes(a)
                        })
                    })
                },
            }
        }),
{
    let n = guest.mem_len();

    // Step 0: the argument regions must be readable guest memory of the
    // fixed widths; anything else is an invalid access, not a validation
    // failure, and raises the trap barrier.
    if amount_len != BALANCE_LEN {
        return TransferResult::Trapped(crate::trap::panic(Fault::InvalidAccess));
    }
    if n < ADDRESS_LEN || dest_ptr > n - ADDRESS_LEN {
        return TransferResult::Trapped(crate::trap::panic(Fault::InvalidAccess));
    }
    if n < BALANCE_LEN || amount_ptr > n - BALANCE_LEN {
        return TransferResult::Trapped(crate::trap::panic(Fault::InvalidAccess));
    }
    proof {
        assert(args_ok(*guest, dest_ptr, amount_ptr, amount_len));
    }

    // The caller's argument bytes, captured before any write.
    let dest_bytes = guest.read_bytes(dest_ptr, ADDRESS_LEN);
    let amount_buf = guest.read_bytes(amount_ptr, BALANCE_LEN);
    let dest_addr = match Address::new(dest_bytes) {
        Some(a) => a,
        None => {
            proof {
                assert(false);
            }
            return TransferResult::Trapped(crate::trap::panic(Fault::InvalidAccess));
        },
    };

    // Step 1: resolve the calling account.
    let sender_addr = host.get_sender_addr();

    // Step 2: scratch buffers for the two balances, then both reads.
    let sb_off = match guest.allocate(BALANCE_LEN) {
        Ok(o) => o,
        Err(t) => {
            return TransferResult::Trapped(t);
        },
    };
    let db_off = match guest.allocate(BALANCE_LEN) {
        Ok(o) => o,
        Err(t) => {
            return TransferResult::Trapped(t);
        },
    };

    let st_sender = host.get_balance(&sender_addr, guest, sb_off, BALANCE_LEN);
    if st_sender != 0 {
        return TransferResult::Returned(TransferStatus::HostCommunication);
    }
    proof {
        host.lemma_balance_abi(sender_addr@);
    }
    let sb = match guest.decode_balance_at(sb_off) {
        Some(v) => v,
        None => {
            proof {
                assert(false);
            }
            return TransferResult::Returned(TransferStatus::HostCommunication);
        },
    };
    let st_dest = host.get_balance(&dest_addr, guest, db_off, BALANCE_LEN);
    if st_dest != 0 {
        return TransferResult::Returned(TransferStatus::HostCommunication);
    }
    proof {
        host.lemma_balance_abi(dest_addr@);
    }
    let db = match guest.decode_balance_at(db_off) {
        Some(v) => v,
        None => {
            proof {
                assert(false);
            }
            return TransferResult::Returned(TransferStatus::HostCommunication);
        },
    };

    // Step 3: validate. An amount outside the 64-bit range exceeds any
    // representable sender balance, so it falls under the underflow rule.
    proof {
        assert(amount_buf@.subrange(0, BALANCE_LEN as int) =~= amount_buf@);
    }
    let amount = match crate::balance::decode_balance(&amount_buf, 0) {
        None => {
            return TransferResult::Returned(TransferStatus::Underflow);
        },
        Some(a) => a,
    };
    if amount > sb {
        return TransferResult::Returned(TransferStatus::Underflow);
    }
    if db > u64::MAX - amount {
        return TransferResult::Returned(TransferStatus::Overflow);
    }

    // Step 4: apply. Both new balances are computed and fully written into
    // guest memory before either commit.
    let new_sb = sb - amount;
    let new_db = db + amount;
    let enc_s = crate::balance::encode_balance(new_sb);
    let enc_d = crate::balance::encode_balance(new_db);
    guest.write_bytes(sb_off, &enc_s);
    guest.write_bytes(db_off, &enc_d);
    proof {
        assert(guest.mem_bytes().subrange(sb_off as int, sb_off + BALANCE_LEN) =~= enc_s@);
        assert(guest.mem_bytes().subrange(db_off as int, db_off + BALANCE_LEN) =~= enc_d@);
    }

    if sender_addr.equals(&dest_addr) {
        // Debit and credit fall on one account and cancel: storage already
        // holds the right state, and writing either buffer would clobber
        // the effect of the other.
        return TransferResult::Returned(TransferStatus::Success);
    }

    host.set_balance(&sender_addr, guest, sb_off, BALANCE_LEN);
    host.set_balance(&dest_addr, guest, db_off, BALANCE_LEN);
    proof {
        crate::balance::lemma_abi_balance_fits(enc_s@);
        crate::balance::lemma_abi_balance_fits(enc_d@);
    }
    TransferResult::Returned(TransferStatus::Success)
}

} // verus!

