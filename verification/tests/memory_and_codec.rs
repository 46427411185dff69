use transfer::allocator::{BumpAllocator, ALLOC_ALIGN};
use transfer::balance::{decode_balance, encode_balance};
use transfer::guest::Guest;
use transfer::host::{Address, Host};
use transfer::trap::Fault;

fn addr(b: u8) -> Address {
    Address::new(vec![b; 20]).unwrap()
}

#[test]
fn allocator_regions_are_aligned_and_disjoint() {
    let mut alloc = BumpAllocator::new(256);
    let sizes: [usize; 4] = [5, 7, 32, 1];
    let mut regions: Vec<(usize, usize)> = Vec::new();
    for &s in sizes.iter() {
        let off = alloc.allocate(s).unwrap();
        assert_eq!(off % ALLOC_ALIGN, 0);
        regions.push((off, s));
    }
    for i in 0..regions.len() {
        for j in 0..regions.len() {
            if i != j {
                let (oi, si) = regions[i];
                let (oj, sj) = regions[j];
                assert!(oi + si <= oj || oj + sj <= oi);
            }
        }
    }
}

#[test]
fn allocator_bumps_in_order() {
    let mut alloc = BumpAllocator::new(64);
    assert_eq!(alloc.allocate(5).unwrap(), 0);
    assert_eq!(alloc.allocate(7).unwrap(), 8);
    assert_eq!(alloc.allocate(4).unwrap(), 16);
}

#[test]
fn allocator_exhaustion_traps_and_changes_nothing() {
    let mut alloc = BumpAllocator::new(8);
    let t = alloc.allocate(12).unwrap_err();
    assert_eq!(t.cause, Fault::AllocationFailure);
    // the failed request left the memory intact
    assert_eq!(alloc.allocate(8).unwrap(), 0);
    assert_eq!(alloc.allocate(1).unwrap_err().cause, Fault::AllocationFailure);
}

#[test]
fn allocator_gives_up_unaligned_tail() {
    let mut alloc = BumpAllocator::new(10);
    assert_eq!(alloc.allocate(8).unwrap(), 0);
    assert_eq!(alloc.allocate(2).unwrap_err().cause, Fault::AllocationFailure);
}

#[test]
fn guest_memory_is_zeroed_and_rounded() {
    let guest = Guest::new(10);
    assert_eq!(guest.mem_len(), 8);
    let bytes = guest.read_bytes(0, 8);
    assert_eq!(bytes, vec![0u8; 8]);
}

#[test]
fn guest_write_then_read_round_trip() {
    let mut guest = Guest::new(64);
    let ptr = guest.allocate(4).unwrap();
    guest.write_bytes(ptr, &vec![9, 8, 7, 6]);
    assert_eq!(guest.read_bytes(ptr, 4), vec![9, 8, 7, 6]);
    // neighbouring bytes stayed zero
    assert_eq!(guest.read_bytes(ptr + 4, 4), vec![0, 0, 0, 0]);
}

#[test]
fn encode_zero_is_all_zero() {
    let b = encode_balance(0);
    assert_eq!(b, vec![0u8; 32]);
}

#[test]
fn encode_is_little_endian() {
    let b = encode_balance(258);
    assert_eq!(b.len(), 32);
    assert_eq!(b[0], 2);
    assert_eq!(b[1], 1);
    for i in 2..32 {
        assert_eq!(b[i], 0);
    }
}

#[test]
fn decode_inverts_encode() {
    for v in [0u64, 1, 255, 256, 258, 0xDEAD_BEEF, u64::MAX - 1, u64::MAX] {
        let b = encode_balance(v);
        assert_eq!(decode_balance(&b, 0), Some(v));
    }
}

#[test]
fn decode_rejects_values_beyond_u64() {
    let mut b = vec![0u8; 32];
    b[31] = 1;
    assert_eq!(decode_balance(&b, 0), None);
}

#[test]
fn decode_reads_at_offset() {
    let mut buf = vec![0xAAu8; 8];
    buf.extend_from_slice(&encode_balance(77));
    assert_eq!(decode_balance(&buf, 8), Some(77));
}

#[test]
fn address_width_is_fixed() {
    assert!(Address::new(vec![0; 20]).is_some());
    assert!(Address::new(vec![0; 19]).is_none());
    assert!(Address::new(vec![0; 21]).is_none());
    assert!(Address::new(Vec::new()).is_none());
}

#[test]
fn address_equality_is_by_bytes() {
    assert!(addr(3).equals(&addr(3)));
    assert!(!addr(3).equals(&addr(4)));
}

#[test]
fn host_reports_sender_and_balances() {
    let mut host = Host::new(addr(7));
    assert!(host.get_sender_addr().equals(&addr(7)));
    assert_eq!(host.balance(&addr(5)), None);
    host.fund(&addr(5), 42);
    assert_eq!(host.balance(&addr(5)), Some(42));
    host.fund(&addr(5), 43);
    assert_eq!(host.balance(&addr(5)), Some(43));
    assert_eq!(host.balance(&addr(6)), None);
}

#[test]
fn get_balance_fills_exactly_the_buffer() {
    let mut host = Host::new(addr(1));
    host.fund(&addr(2), 258);
    let mut guest = Guest::new(128);
    let out = guest.allocate(32).unwrap();
    let status = host.get_balance(&addr(2), &mut guest, out, 32);
    assert_eq!(status, 0);
    assert_eq!(guest.read_bytes(out, 32), encode_balance(258));
    // bytes outside the buffer untouched
    assert_eq!(guest.read_bytes(out + 32, 8), vec![0u8; 8]);
}

#[test]
fn get_balance_rejects_undersized_buffer_and_unknown_address() {
    let mut host = Host::new(addr(1));
    host.fund(&addr(2), 258);
    let mut guest = Guest::new(128);
    let out = guest.allocate(32).unwrap();
    assert_ne!(host.get_balance(&addr(2), &mut guest, out, 16), 0);
    assert_ne!(host.get_balance(&addr(3), &mut guest, out, 32), 0);
    // memory untouched on failure
    assert_eq!(guest.read_bytes(out, 32), vec![0u8; 32]);
}

#[test]
fn trap_barrier_carries_its_cause() {
    assert_eq!(transfer::trap::panic(Fault::AllocationFailure).cause, Fault::AllocationFailure);
    assert_eq!(transfer::trap::panic(Fault::InvalidAccess).cause, Fault::InvalidAccess);
}
