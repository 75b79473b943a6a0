use neqo_transport::cid::ConnectionIdTable;
use neqo_transport::error::Error;

#[test]
fn duplicate_sequence_with_other_bytes_is_refused() {
    let mut t = ConnectionIdTable::new(4);
    assert_eq!(t.add_peer_id(3, &[1, 2, 3, 4], [7; 16]), Ok(()));
    assert_eq!(t.add_peer_id(3, &[1, 2, 3, 5], [7; 16]), Err(Error::DuplicateSequence));
    assert_eq!(t.add_peer_id(3, &[1, 2, 3], [7; 16]), Err(Error::DuplicateSequence));
    assert_eq!(t.add_peer_id(3, &[1, 2, 3, 4], [8; 16]), Err(Error::DuplicateSequence));
    assert_eq!(t.active_peer_ids(), 1);
    assert_eq!(t.peer_id(3), Some(vec![1, 2, 3, 4]));
}

#[test]
fn same_entry_twice_is_accepted() {
    let mut t = ConnectionIdTable::new(1);
    assert_eq!(t.add_peer_id(3, &[1, 2, 3, 4], [7; 16]), Ok(()));
    assert_eq!(t.add_peer_id(3, &[1, 2, 3, 4], [7; 16]), Ok(()));
    assert_eq!(t.active_peer_ids(), 1);
    assert_eq!(t.peer_id(3), Some(vec![1, 2, 3, 4]));
}

#[test]
fn limit_of_active_ids_is_enforced() {
    let mut t = ConnectionIdTable::new(2);
    assert_eq!(t.add_peer_id(0, &[0], [0; 16]), Ok(()));
    assert_eq!(t.add_peer_id(1, &[1], [1; 16]), Ok(()));
    assert_eq!(t.add_peer_id(2, &[2], [2; 16]), Err(Error::ConnectionIdLimit));
    assert_eq!(t.active_peer_ids(), 2);
    assert_eq!(t.peer_id(2), None);
    assert_eq!(t.add_peer_id(1, &[1], [1; 16]), Ok(()));
    assert!(t.retire_peer_id(0));
    assert_eq!(t.add_peer_id(2, &[2], [2; 16]), Ok(()));
    assert_eq!(t.active_peer_ids(), 2);
}

#[test]
fn table_without_room_accepts_nothing() {
    let mut t = ConnectionIdTable::new(0);
    assert_eq!(t.add_peer_id(0, &[0], [0; 16]), Err(Error::ConnectionIdLimit));
    assert_eq!(t.active_peer_ids(), 0);
}

#[test]
fn retired_id_is_gone_and_stays_gone() {
    let mut t = ConnectionIdTable::new(4);
    assert_eq!(t.add_peer_id(3, &[1, 2, 3, 4], [7; 16]), Ok(()));
    assert!(t.retire_peer_id(3));
    assert_eq!(t.peer_id(3), None);
    assert_eq!(t.active_peer_ids(), 0);
    assert!(!t.retire_peer_id(3));
    assert_eq!(t.add_peer_id(3, &[1, 2, 3, 4], [7; 16]), Ok(()));
    assert_eq!(t.add_peer_id(3, &[9, 9], [1; 16]), Ok(()));
    assert_eq!(t.peer_id(3), None);
    assert_eq!(t.active_peer_ids(), 0);
}

#[test]
fn retiring_an_unknown_id_changes_nothing() {
    let mut t = ConnectionIdTable::new(4);
    assert!(!t.retire_peer_id(5));
    assert_eq!(t.add_peer_id(5, &[5], [5; 16]), Ok(()));
    assert_eq!(t.peer_id(5), Some(vec![5]));
}

#[test]
fn retiring_one_id_keeps_the_others() {
    let mut t = ConnectionIdTable::new(4);
    for seq in 0..4u64 {
        assert_eq!(t.add_peer_id(seq, &[seq as u8, 0xaa], [seq as u8; 16]), Ok(()));
    }
    assert!(t.retire_peer_id(1));
    assert_eq!(t.peer_id(0), Some(vec![0, 0xaa]));
    assert_eq!(t.peer_id(1), None);
    assert_eq!(t.peer_id(2), Some(vec![2, 0xaa]));
    assert_eq!(t.peer_id(3), Some(vec![3, 0xaa]));
    assert_eq!(t.active_peer_ids(), 3);
}

#[test]
fn local_ids_are_unique_by_sequence_number() {
    let mut t = ConnectionIdTable::new(1);
    assert!(t.add_local_id(0, &[1], [1; 16]));
    assert!(!t.add_local_id(0, &[2], [2; 16]));
    assert!(t.add_local_id(1, &[3], [3; 16]));
    assert!(t.retire_local_id(0));
    assert!(!t.retire_local_id(0));
    assert!(t.add_local_id(0, &[2], [2; 16]));
    assert_eq!(t.active_peer_ids(), 0);
}
