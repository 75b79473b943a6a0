use neqo_transport::error::Error;
use neqo_transport::reassembler::Reassembler;
use neqo_transport::reassembly::STREAM_MAX;

#[test]
fn in_order_data_is_readable_at_once() {
    let mut r = Reassembler::new();
    assert_eq!(r.next_rx_offset(), 0);
    assert_eq!(r.insert(0, b"ab", false), Ok(()));
    assert_eq!(r.next_rx_offset(), 2);
    assert_eq!(r.available(), 2);
    assert_eq!(r.read(), b"ab".to_vec());
    assert_eq!(r.available(), 0);
    assert_eq!(r.next_rx_offset(), 2);
    assert_eq!(r.insert(2, b"cd", false), Ok(()));
    assert_eq!(r.read(), b"cd".to_vec());
    assert_eq!(r.next_rx_offset(), 4);
}

#[test]
fn out_of_order_data_waits_for_the_gap() {
    let mut r = Reassembler::new();
    assert_eq!(r.insert(5, b"fgh", false), Ok(()));
    assert_eq!(r.next_rx_offset(), 0);
    assert_eq!(r.read(), Vec::<u8>::new());
    assert_eq!(r.highest_received(), 8);
    assert_eq!(r.insert(0, b"abcde", false), Ok(()));
    assert_eq!(r.next_rx_offset(), 8);
    assert_eq!(r.read(), b"abcdefgh".to_vec());
}

#[test]
fn buffered_ranges_are_absorbed_one_after_the_other() {
    let mut r = Reassembler::new();
    assert_eq!(r.insert(6, b"gh", false), Ok(()));
    assert_eq!(r.insert(2, b"cd", false), Ok(()));
    assert_eq!(r.insert(4, b"ef", false), Ok(()));
    assert_eq!(r.insert(10, b"kl", false), Ok(()));
    assert_eq!(r.next_rx_offset(), 0);
    assert_eq!(r.insert(0, b"ab", false), Ok(()));
    assert_eq!(r.next_rx_offset(), 8);
    assert_eq!(r.read(), b"abcdefgh".to_vec());
    assert_eq!(r.insert(8, b"ij", false), Ok(()));
    assert_eq!(r.next_rx_offset(), 12);
    assert_eq!(r.read(), b"ijkl".to_vec());
}

#[test]
fn overlapping_ranges_keep_the_union() {
    let mut r = Reassembler::new();
    assert_eq!(r.insert(7, b"hijkl", false), Ok(()));
    assert_eq!(r.insert(3, b"defghi", false), Ok(()));
    assert_eq!(r.insert(2, b"cdefghijklmn", false), Ok(()));
    assert_eq!(r.highest_received(), 14);
    assert_eq!(r.insert(0, b"abc", false), Ok(()));
    assert_eq!(r.next_rx_offset(), 14);
    assert_eq!(r.read(), b"abcdefghijklmn".to_vec());
}

#[test]
fn in_order_data_that_overlaps_buffered_data() {
    let mut r = Reassembler::new();
    assert_eq!(r.insert(7, b"hijkl", false), Ok(()));
    assert_eq!(r.insert(0, b"abcdefghij", false), Ok(()));
    assert_eq!(r.next_rx_offset(), 12);
    assert_eq!(r.read(), b"abcdefghijkl".to_vec());
}

#[test]
fn range_that_fills_several_gaps() {
    let mut r = Reassembler::new();
    assert_eq!(r.insert(2, b"c", false), Ok(()));
    assert_eq!(r.insert(4, b"e", false), Ok(()));
    assert_eq!(r.insert(6, b"g", false), Ok(()));
    assert_eq!(r.insert(1, b"bcdefgh", false), Ok(()));
    assert_eq!(r.next_rx_offset(), 0);
    assert_eq!(r.insert(0, b"a", false), Ok(()));
    assert_eq!(r.read(), b"abcdefgh".to_vec());
}

#[test]
fn redundant_data_is_dropped() {
    let mut r = Reassembler::new();
    assert_eq!(r.insert(0, b"abcd", false), Ok(()));
    assert_eq!(r.insert(0, b"ab", false), Ok(()));
    assert_eq!(r.insert(1, b"bcd", false), Ok(()));
    assert_eq!(r.insert(2, b"XY", false), Ok(()));
    assert_eq!(r.next_rx_offset(), 4);
    assert_eq!(r.read(), b"abcd".to_vec());
    assert_eq!(r.insert(0, b"abcd", false), Ok(()));
    assert_eq!(r.read(), Vec::<u8>::new());
    assert_eq!(r.next_rx_offset(), 4);
}

#[test]
fn data_that_is_partly_below_the_contiguous_offset() {
    let mut r = Reassembler::new();
    assert_eq!(r.insert(0, b"abcd", false), Ok(()));
    assert_eq!(r.read(), b"abcd".to_vec());
    assert_eq!(r.insert(2, b"cdef", false), Ok(()));
    assert_eq!(r.next_rx_offset(), 6);
    assert_eq!(r.read(), b"ef".to_vec());
}

#[test]
fn conflicting_data_is_refused() {
    let mut r = Reassembler::new();
    assert_eq!(r.insert(5, b"fgh", false), Ok(()));
    assert_eq!(r.insert(6, b"gX", false), Err(Error::StreamDataConflict));
    assert_eq!(r.insert(4, b"eXg", false), Err(Error::StreamDataConflict));
    assert_eq!(r.insert(0, b"abcdeXgh", false), Err(Error::StreamDataConflict));
    assert_eq!(r.next_rx_offset(), 0);
    assert_eq!(r.highest_received(), 8);
    assert_eq!(r.insert(0, b"abcde", false), Ok(()));
    assert_eq!(r.read(), b"abcdefgh".to_vec());
}

#[test]
fn same_data_twice_changes_nothing() {
    let mut r = Reassembler::new();
    assert_eq!(r.insert(5, b"fgh", false), Ok(()));
    assert_eq!(r.insert(5, b"fgh", false), Ok(()));
    assert_eq!(r.next_rx_offset(), 0);
    assert_eq!(r.highest_received(), 8);
    assert_eq!(r.insert(0, b"abcde", false), Ok(()));
    assert_eq!(r.insert(0, b"abcde", false), Ok(()));
    assert_eq!(r.next_rx_offset(), 8);
    assert_eq!(r.read(), b"abcdefgh".to_vec());
}

fn reassemble(ranges: &[(u64, &[u8])]) -> (u64, Vec<u8>, u64) {
    let mut r = Reassembler::new();
    for (offset, data) in ranges {
        assert_eq!(r.insert(*offset, data, false), Ok(()));
    }
    let highest = r.highest_received();
    (r.next_rx_offset(), r.read(), highest)
}

#[test]
fn order_of_insertion_does_not_matter() {
    let a: (u64, &[u8]) = (0, b"abc");
    let b: (u64, &[u8]) = (2, b"cdef");
    let c: (u64, &[u8]) = (5, b"fg");
    let d: (u64, &[u8]) = (9, b"jk");
    let want = (7, b"abcdefg".to_vec(), 11);
    let orders: [[(u64, &[u8]); 4]; 6] = [
        [a, b, c, d],
        [d, c, b, a],
        [b, d, a, c],
        [c, a, d, b],
        [d, a, c, b],
        [b, c, d, a],
    ];
    for order in orders {
        assert_eq!(reassemble(&order), want);
    }
}

#[test]
fn empty_data_is_accepted() {
    let mut r = Reassembler::new();
    assert_eq!(r.insert(0, b"", false), Ok(()));
    assert_eq!(r.insert(9, b"", false), Ok(()));
    assert_eq!(r.next_rx_offset(), 0);
    assert_eq!(r.highest_received(), 0);
    assert_eq!(r.fin_offset(), None);
    assert!(!r.closed_for_reading());
}

#[test]
fn fin_fixes_the_final_size() {
    let mut r = Reassembler::new();
    assert_eq!(r.insert(3, b"de", true), Ok(()));
    assert_eq!(r.fin_offset(), Some(5));
    assert!(!r.closed_for_reading());
    assert_eq!(r.insert(0, b"abc", false), Ok(()));
    assert_eq!(r.next_rx_offset(), 5);
    assert!(r.closed_for_reading());
    assert_eq!(r.read(), b"abcde".to_vec());
    assert!(r.closed_for_reading());
}

#[test]
fn empty_stream_is_closed_by_fin_alone() {
    let mut r = Reassembler::new();
    assert_eq!(r.insert(0, b"", true), Ok(()));
    assert_eq!(r.fin_offset(), Some(0));
    assert!(r.closed_for_reading());
}

#[test]
fn fin_at_another_offset_is_refused() {
    let mut r = Reassembler::new();
    assert_eq!(r.insert(3, b"de", true), Ok(()));
    assert_eq!(r.insert(3, b"d", true), Err(Error::FinalSizeViolation));
    assert_eq!(r.insert(5, b"", true), Ok(()));
    assert_eq!(r.insert(3, b"de", true), Ok(()));
    assert_eq!(r.insert(0, b"a", true), Err(Error::FinalSizeViolation));
    assert_eq!(r.fin_offset(), Some(5));
}

#[test]
fn data_beyond_the_final_size_is_refused() {
    let mut r = Reassembler::new();
    assert_eq!(r.insert(3, b"de", true), Ok(()));
    assert_eq!(r.insert(4, b"ef", false), Err(Error::FinalSizeViolation));
    assert_eq!(r.insert(5, b"f", false), Err(Error::FinalSizeViolation));
    assert_eq!(r.insert(9, b"", false), Err(Error::FinalSizeViolation));
    assert_eq!(r.insert(0, b"abc", false), Ok(()));
    assert_eq!(r.read(), b"abcde".to_vec());
}

#[test]
fn fin_below_received_data_is_refused() {
    let mut r = Reassembler::new();
    assert_eq!(r.insert(5, b"fgh", false), Ok(()));
    assert_eq!(r.insert(0, b"abc", true), Err(Error::FinalSizeViolation));
    assert_eq!(r.insert(5, b"fg", true), Err(Error::FinalSizeViolation));
    assert_eq!(r.fin_offset(), None);
    assert_eq!(r.insert(5, b"fgh", true), Ok(()));
    assert_eq!(r.fin_offset(), Some(8));

    let mut r = Reassembler::new();
    assert_eq!(r.insert(0, b"abcd", false), Ok(()));
    assert_eq!(r.insert(0, b"ab", true), Err(Error::FinalSizeViolation));
    assert_eq!(r.insert(4, b"", true), Ok(()));
    assert!(r.closed_for_reading());
}

#[test]
fn data_beyond_the_largest_offset_is_refused() {
    let mut r = Reassembler::new();
    assert_eq!(r.insert(STREAM_MAX, b"a", false), Err(Error::FinalSizeViolation));
    assert_eq!(r.insert(STREAM_MAX + 1, b"", false), Err(Error::FinalSizeViolation));
    assert_eq!(r.insert(u64::MAX, b"abc", false), Err(Error::FinalSizeViolation));
    assert_eq!(r.insert(STREAM_MAX - 1, b"a", true), Ok(()));
    assert_eq!(r.fin_offset(), Some(STREAM_MAX));
    assert_eq!(r.highest_received(), STREAM_MAX);
}

#[test]
fn refused_data_leaves_no_trace() {
    let mut r = Reassembler::new();
    assert_eq!(r.insert(4, b"ef", false), Ok(()));
    assert_eq!(r.insert(2, b"cdXf", true), Err(Error::StreamDataConflict));
    assert_eq!(r.fin_offset(), None);
    assert_eq!(r.insert(0, b"ab", false), Ok(()));
    assert_eq!(r.next_rx_offset(), 2);
    assert_eq!(r.insert(2, b"cd", false), Ok(()));
    assert_eq!(r.read(), b"abcdef".to_vec());
}

#[test]
fn contiguous_offset_never_decreases() {
    let mut r = Reassembler::new();
    let inputs: [(u64, &[u8], bool); 8] = [
        (4, b"ef", false),
        (0, b"ab", false),
        (1, b"b", false),
        (9, b"jk", false),
        (2, b"cd", false),
        (5, b"Z", false),
        (6, b"ghij", false),
        (0, b"abcdefghijk", true),
    ];
    let mut last = r.next_rx_offset();
    for (offset, data, fin) in inputs {
        let _ = r.insert(offset, data, fin);
        assert!(r.next_rx_offset() >= last);
        last = r.next_rx_offset();
        let _ = r.read();
        assert_eq!(r.next_rx_offset(), last);
    }
    assert_eq!(last, 11);
}

struct Lcg(u64);

impl Lcg {
    fn next(&mut self, bound: u64) -> u64 {
        self.0 = self.0.wrapping_mul(6364136223846793005).wrapping_add(1442695040888963407);
        (self.0 >> 33) % bound
    }
}

#[test]
fn random_ranges_of_one_stream_reassemble_to_its_prefix() {
    let mut rng = Lcg(7);
    for round in 0..200u64 {
        let len = 1 + rng.next(60) as usize;
        let stream: Vec<u8> = (0..len).map(|i| (i as u64 * 31 + round) as u8).collect();
        let mut r = Reassembler::new();
        let mut have = vec![false; len];
        let mut read = Vec::new();
        for _ in 0..rng.next(40) {
            let a = rng.next(len as u64 + 1) as usize;
            let b = a + rng.next((len - a) as u64 + 1) as usize;
            assert_eq!(r.insert(a as u64, &stream[a..b], false), Ok(()));
            for h in &mut have[a..b] {
                *h = true;
            }
            let gap = have.iter().position(|h| !h).unwrap_or(len);
            assert_eq!(r.next_rx_offset(), gap as u64);
            assert_eq!(r.available(), gap - read.len());
            let top = have.iter().rposition(|h| *h).map_or(0, |i| i + 1);
            assert_eq!(r.highest_received(), top.max(gap) as u64);
            if rng.next(3) == 0 {
                read.extend_from_slice(&r.read());
                assert_eq!(read.len(), gap);
            }
        }
        read.extend_from_slice(&r.read());
        assert_eq!(read[..], stream[..read.len()]);
        assert_eq!(read.len() as u64, r.next_rx_offset());
    }
}

#[test]
fn random_conflicts_are_found_exactly_where_buffered_bytes_differ() {
    let mut rng = Lcg(11);
    for _ in 0..300 {
        let len = 40usize;
        let stream: Vec<u8> = (0..len).map(|i| i as u8).collect();
        let mut r = Reassembler::new();
        let mut have = vec![false; len];
        for _ in 0..rng.next(6) {
            let a = 1 + rng.next(len as u64 - 1) as usize;
            let b = a + rng.next((len - a) as u64 + 1) as usize;
            assert_eq!(r.insert(a as u64, &stream[a..b], false), Ok(()));
            for h in &mut have[a..b] {
                *h = true;
            }
        }
        assert_eq!(r.next_rx_offset(), 0);
        let a = rng.next(len as u64) as usize;
        let b = a + 1 + rng.next((len - a) as u64) as usize;
        let mut data = stream[a..b].to_vec();
        let at = a + rng.next((b - a) as u64) as usize;
        data[at - a] ^= 0xff;
        let expected = if have[at] { Err(Error::StreamDataConflict) } else { Ok(()) };
        assert_eq!(r.insert(a as u64, &data, false), expected);
    }
}
