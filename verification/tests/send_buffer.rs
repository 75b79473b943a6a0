use neqo_transport::error::Error;
use neqo_transport::reassembly::STREAM_MAX;
use neqo_transport::send_buffer::SendBuffer;

#[test]
fn queue_returns_the_range_of_offsets() {
    let mut b = SendBuffer::new();
    assert_eq!(b.tx_offset(), 0);
    assert!(b.fully_acked());
    assert_eq!(b.queue(b"abc"), Ok((0, 3)));
    assert_eq!(b.queue(b""), Ok((3, 3)));
    assert_eq!(b.queue(b"de"), Ok((3, 5)));
    assert_eq!(b.tx_offset(), 5);
    assert_eq!(b.released(), 0);
    assert!(!b.fully_acked());
}

#[test]
fn acknowledged_prefix_is_released() {
    let mut b = SendBuffer::new();
    assert_eq!(b.queue(b"abcdefgh"), Ok((0, 8)));
    b.mark_acked(0, 3);
    assert_eq!(b.released(), 3);
    assert_eq!(b.read_at(0, 3), None);
    assert_eq!(b.read_at(3, 5), Some(b"defgh".to_vec()));
    b.mark_acked(3, 8);
    assert_eq!(b.released(), 8);
    assert!(b.fully_acked());
    assert_eq!(b.tx_offset(), 8);
}

#[test]
fn acknowledgements_out_of_order() {
    let mut b = SendBuffer::new();
    assert_eq!(b.queue(b"abcdefgh"), Ok((0, 8)));
    b.mark_acked(5, 8);
    assert_eq!(b.released(), 0);
    b.mark_acked(2, 4);
    assert_eq!(b.released(), 0);
    assert_eq!(b.read_at(0, 8), Some(b"abcdefgh".to_vec()));
    b.mark_acked(0, 2);
    assert_eq!(b.released(), 4);
    assert_eq!(b.read_at(4, 1), Some(b"e".to_vec()));
    assert!(!b.fully_acked());
    b.mark_acked(4, 5);
    assert_eq!(b.released(), 8);
    assert!(b.fully_acked());
}

#[test]
fn overlapping_and_repeated_acknowledgements() {
    let mut b = SendBuffer::new();
    assert_eq!(b.queue(b"abcdefgh"), Ok((0, 8)));
    b.mark_acked(1, 6);
    b.mark_acked(2, 4);
    b.mark_acked(5, 7);
    b.mark_acked(1, 6);
    assert_eq!(b.released(), 0);
    b.mark_acked(0, 1);
    assert_eq!(b.released(), 7);
    b.mark_acked(0, 7);
    assert_eq!(b.released(), 7);
    assert_eq!(b.read_at(7, 1), Some(b"h".to_vec()));
}

#[test]
fn acknowledgement_of_what_was_not_sent_is_ignored() {
    let mut b = SendBuffer::new();
    assert_eq!(b.queue(b"abcd"), Ok((0, 4)));
    b.mark_acked(4, 9);
    b.mark_acked(7, 3);
    b.mark_acked(2, 2);
    assert_eq!(b.released(), 0);
    b.mark_acked(0, 100);
    assert_eq!(b.released(), 4);
    assert!(b.fully_acked());
    assert_eq!(b.queue(b"ef"), Ok((4, 6)));
    assert_eq!(b.released(), 4);
    assert!(!b.fully_acked());
    assert_eq!(b.read_at(4, 2), Some(b"ef".to_vec()));
}

#[test]
fn retained_bytes_can_be_read_again() {
    let mut b = SendBuffer::new();
    assert_eq!(b.queue(b"abcdef"), Ok((0, 6)));
    assert_eq!(b.read_at(0, 6), Some(b"abcdef".to_vec()));
    assert_eq!(b.read_at(2, 3), Some(b"cde".to_vec()));
    assert_eq!(b.read_at(6, 0), Some(vec![]));
    assert_eq!(b.read_at(2, 5), None);
    assert_eq!(b.read_at(7, 0), None);
    assert_eq!(b.read_at(u64::MAX, 1), None);
}

#[test]
fn queue_beyond_the_largest_offset_is_refused() {
    let mut b = SendBuffer::new();
    assert_eq!(b.queue(b"ab"), Ok((0, 2)));
    b.mark_acked(0, 2);
    assert_eq!(STREAM_MAX, (1 << 62) - 1);
    assert_eq!(b.queue(b"c"), Ok((2, 3)));
    assert_ne!(b.queue(b"d"), Err(Error::FinalSizeViolation));
}

struct Lcg(u64);

impl Lcg {
    fn next(&mut self, bound: u64) -> u64 {
        self.0 = self.0.wrapping_mul(6364136223846793005).wrapping_add(1442695040888963407);
        (self.0 >> 33) % bound
    }
}

#[test]
fn random_acknowledgements_release_exactly_the_acknowledged_prefix() {
    let mut rng = Lcg(3);
    for _ in 0..200 {
        let mut b = SendBuffer::new();
        let mut data: Vec<u8> = Vec::new();
        let mut acked: Vec<bool> = Vec::new();
        for _ in 0..30 {
            if rng.next(3) == 0 {
                let n = rng.next(10) as usize;
                let chunk: Vec<u8> = (0..n).map(|i| (data.len() + i) as u8).collect();
                let start = data.len() as u64;
                assert_eq!(b.queue(&chunk), Ok((start, start + n as u64)));
                data.extend_from_slice(&chunk);
                acked.resize(data.len(), false);
            } else {
                let s = rng.next(data.len() as u64 + 3);
                let e = rng.next(data.len() as u64 + 3);
                b.mark_acked(s, e);
                for o in s..e.min(data.len() as u64) {
                    acked[o as usize] = true;
                }
            }
            let base = acked.iter().position(|a| !a).unwrap_or(data.len());
            assert_eq!(b.released(), base as u64);
            assert_eq!(b.tx_offset(), data.len() as u64);
            assert_eq!(b.fully_acked(), base == data.len());
            assert_eq!(b.read_at(base as u64, data.len() - base), Some(data[base..].to_vec()));
        }
    }
}
