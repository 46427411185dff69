use transfer::balance::encode_balance;
use transfer::guest::Guest;
use transfer::host::{Address, Host};
use transfer::transfer::{
    status_code, transfer, TransferResult, TransferStatus, STATUS_HOST_ERROR, STATUS_OVERFLOW,
    STATUS_SUCCESS, STATUS_UNDERFLOW,
};
use transfer::trap::Fault;

fn addr(b: u8) -> Address {
    Address::new(vec![b; 20]).unwrap()
}

/// Builds a guest whose memory already carries the call arguments: the
/// destination address at `dest_ptr` and the amount buffer at `amount_ptr`.
fn guest_with_args(mem_size: usize, dest: u8, amount_bytes: &[u8]) -> (Guest, usize, usize) {
    let mut guest = Guest::new(mem_size);
    let dest_ptr = guest.allocate(20).unwrap();
    guest.write_bytes(dest_ptr, &vec![dest; 20]);
    let amount_ptr = guest.allocate(32).unwrap();
    guest.write_bytes(amount_ptr, &amount_bytes.to_vec());
    (guest, dest_ptr, amount_ptr)
}

fn run_transfer(
    sender_balance: Option<u64>,
    dest_balance: Option<u64>,
    amount: u64,
) -> (TransferResult, Host) {
    let sender = addr(1);
    let dest = addr(2);
    let mut host = Host::new(addr(1));
    if let Some(b) = sender_balance {
        host.fund(&sender, b);
    }
    if let Some(b) = dest_balance {
        host.fund(&dest, b);
    }
    let (mut guest, dest_ptr, amount_ptr) = guest_with_args(1024, 2, &encode_balance(amount));
    let r = transfer(&mut host, &mut guest, dest_ptr, amount_ptr, 32);
    (r, host)
}

#[test]
fn example_scenario_success() {
    let (r, host) = run_transfer(Some(100), Some(50), 30);
    assert_eq!(r, TransferResult::Returned(TransferStatus::Success));
    assert_eq!(host.balance(&addr(1)), Some(70));
    assert_eq!(host.balance(&addr(2)), Some(80));
}

#[test]
fn example_scenario_underflow() {
    let (r, host) = run_transfer(Some(10), Some(50), 11);
    assert_eq!(r, TransferResult::Returned(TransferStatus::Underflow));
    assert_eq!(host.balance(&addr(1)), Some(10));
    assert_eq!(host.balance(&addr(2)), Some(50));
}

#[test]
fn conservation_on_success() {
    let (r, host) = run_transfer(Some(12345), Some(6789), 4444);
    assert_eq!(r, TransferResult::Returned(TransferStatus::Success));
    let s = host.balance(&addr(1)).unwrap();
    let d = host.balance(&addr(2)).unwrap();
    assert_eq!(s + d, 12345 + 6789);
}

#[test]
fn underflow_boundary_whole_balance_succeeds() {
    let (r, host) = run_transfer(Some(10), Some(50), 10);
    assert_eq!(r, TransferResult::Returned(TransferStatus::Success));
    assert_eq!(host.balance(&addr(1)), Some(0));
    assert_eq!(host.balance(&addr(2)), Some(60));
}

#[test]
fn underflow_boundary_one_more_fails() {
    let (r, host) = run_transfer(Some(10), Some(50), 11);
    assert_eq!(r, TransferResult::Returned(TransferStatus::Underflow));
    assert_eq!(host.balance(&addr(1)), Some(10));
    assert_eq!(host.balance(&addr(2)), Some(50));
}

#[test]
fn overflow_boundary_exactly_max_succeeds() {
    let (r, host) = run_transfer(Some(100), Some(u64::MAX - 30), 30);
    assert_eq!(r, TransferResult::Returned(TransferStatus::Success));
    assert_eq!(host.balance(&addr(1)), Some(70));
    assert_eq!(host.balance(&addr(2)), Some(u64::MAX));
}

#[test]
fn overflow_boundary_one_beyond_fails() {
    let (r, host) = run_transfer(Some(100), Some(u64::MAX - 29), 30);
    assert_eq!(r, TransferResult::Returned(TransferStatus::Overflow));
    assert_eq!(host.balance(&addr(1)), Some(100));
    assert_eq!(host.balance(&addr(2)), Some(u64::MAX - 29));
}

#[test]
fn amount_beyond_u64_is_underflow() {
    let sender = addr(1);
    let dest = addr(2);
    let mut host = Host::new(addr(1));
    host.fund(&sender, u64::MAX);
    host.fund(&dest, 0);
    let mut amount_bytes = vec![0u8; 32];
    amount_bytes[8] = 1; // one past the 64-bit range
    let (mut guest, dest_ptr, amount_ptr) = guest_with_args(1024, 2, &amount_bytes);
    let r = transfer(&mut host, &mut guest, dest_ptr, amount_ptr, 32);
    assert_eq!(r, TransferResult::Returned(TransferStatus::Underflow));
    assert_eq!(host.balance(&sender), Some(u64::MAX));
    assert_eq!(host.balance(&dest), Some(0));
}

#[test]
fn unknown_destination_is_host_error() {
    let (r, host) = run_transfer(Some(100), None, 30);
    assert_eq!(r, TransferResult::Returned(TransferStatus::HostCommunication));
    assert_eq!(host.balance(&addr(1)), Some(100));
    assert_eq!(host.balance(&addr(2)), None);
}

#[test]
fn unknown_sender_is_host_error() {
    let (r, host) = run_transfer(None, Some(50), 30);
    assert_eq!(r, TransferResult::Returned(TransferStatus::HostCommunication));
    assert_eq!(host.balance(&addr(1)), None);
    assert_eq!(host.balance(&addr(2)), Some(50));
}

#[test]
fn self_transfer_leaves_balance_unchanged() {
    let sender = addr(1);
    let mut host = Host::new(addr(1));
    host.fund(&sender, 100);
    // the destination region names the sender itself
    let (mut guest, dest_ptr, amount_ptr) = guest_with_args(1024, 1, &encode_balance(30));
    let r = transfer(&mut host, &mut guest, dest_ptr, amount_ptr, 32);
    assert_eq!(r, TransferResult::Returned(TransferStatus::Success));
    assert_eq!(host.balance(&sender), Some(100));
}

#[test]
fn self_transfer_still_validates() {
    let sender = addr(1);
    let mut host = Host::new(addr(1));
    host.fund(&sender, 10);
    let (mut guest, dest_ptr, amount_ptr) = guest_with_args(1024, 1, &encode_balance(11));
    let r = transfer(&mut host, &mut guest, dest_ptr, amount_ptr, 32);
    assert_eq!(r, TransferResult::Returned(TransferStatus::Underflow));
    assert_eq!(host.balance(&sender), Some(10));
}

#[test]
fn scratch_exhaustion_traps() {
    let sender = addr(1);
    let dest = addr(2);
    let mut host = Host::new(addr(1));
    host.fund(&sender, 100);
    host.fund(&dest, 50);
    // 112 usable bytes: arguments end at 52, leaving 60 — not enough for
    // the two 32-byte scratch buffers.
    let (mut guest, dest_ptr, amount_ptr) = guest_with_args(112, 2, &encode_balance(30));
    let r = transfer(&mut host, &mut guest, dest_ptr, amount_ptr, 32);
    match r {
        TransferResult::Trapped(t) => assert_eq!(t.cause, Fault::AllocationFailure),
        other => panic!("expected a trap, got {:?}", other),
    }
    assert_eq!(host.balance(&sender), Some(100));
    assert_eq!(host.balance(&dest), Some(50));
}

#[test]
fn wrong_amount_width_traps() {
    let sender = addr(1);
    let dest = addr(2);
    let mut host = Host::new(addr(1));
    host.fund(&sender, 100);
    host.fund(&dest, 50);
    let (mut guest, dest_ptr, amount_ptr) = guest_with_args(1024, 2, &encode_balance(30));
    let r = transfer(&mut host, &mut guest, dest_ptr, amount_ptr, 16);
    match r {
        TransferResult::Trapped(t) => assert_eq!(t.cause, Fault::InvalidAccess),
        other => panic!("expected a trap, got {:?}", other),
    }
    assert_eq!(host.balance(&sender), Some(100));
    assert_eq!(host.balance(&dest), Some(50));
}

#[test]
fn out_of_bounds_arguments_trap() {
    let sender = addr(1);
    let mut host = Host::new(addr(1));
    host.fund(&sender, 100);
    let mut guest = Guest::new(64);
    let r = transfer(&mut host, &mut guest, 60, 0, 32);
    match r {
        TransferResult::Trapped(t) => assert_eq!(t.cause, Fault::InvalidAccess),
        other => panic!("expected a trap, got {:?}", other),
    }
    let mut guest2 = Guest::new(64);
    let r2 = transfer(&mut host, &mut guest2, 0, 40, 32);
    match r2 {
        TransferResult::Trapped(t) => assert_eq!(t.cause, Fault::InvalidAccess),
        other => panic!("expected a trap, got {:?}", other),
    }
    assert_eq!(host.balance(&sender), Some(100));
}

#[test]
fn status_codes_are_the_fixed_sentinels() {
    assert_eq!(status_code(TransferStatus::Success), STATUS_SUCCESS);
    assert_eq!(status_code(TransferStatus::Underflow), STATUS_UNDERFLOW);
    assert_eq!(status_code(TransferStatus::Overflow), STATUS_OVERFLOW);
    assert_eq!(status_code(TransferStatus::HostCommunication), STATUS_HOST_ERROR);
    assert_eq!(STATUS_SUCCESS, 11);
    assert_eq!(STATUS_UNDERFLOW, -1);
    assert_eq!(STATUS_OVERFLOW, -2);
    assert_eq!(STATUS_HOST_ERROR, -3);
}
