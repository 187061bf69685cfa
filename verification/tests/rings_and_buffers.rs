use adibi::buffers::{BufferManager, MAX_BUFFER_SLOTS};
use adibi::user_data::{
    UserData, UserDataError, UserDataOpType, UserDataOpTypeError,
};

const OPS: [(UserDataOpType, u32); 5] = [
    (UserDataOpType::Ep0Poll, 1),
    (UserDataOpType::BulkOutReadHeader, 2),
    (UserDataOpType::BulkOutReadPayload, 3),
    (UserDataOpType::BulkInWrite, 4),
    (UserDataOpType::PtyRead, 5),
];

#[test]
fn operations_are_numbered() {
    for (op, number) in OPS {
        assert_eq!(u32::from(op), number);
        assert_eq!(UserDataOpType::try_from(number), Ok(op));
    }
    assert_eq!(UserDataOpType::try_from(0), Err(UserDataOpTypeError(0)));
    assert_eq!(UserDataOpType::try_from(6), Err(UserDataOpTypeError(6)));
}

#[test]
fn tags_survive_the_ring() {
    for (op, number) in OPS {
        for data in [None, Some(1), Some(8), Some(u32::MAX)] {
            let tag = UserData::new(op, data);
            let raw = u64::from(tag);
            assert_eq!(raw, (u64::from(number) << 32) | u64::from(data.unwrap_or(0)));
            let back = UserData::try_from(raw).unwrap();
            assert_eq!(back.op_type(), op);
            assert_eq!(back.data(), data);
        }
    }
}

#[test]
fn unknown_tags_are_refused() {
    assert_eq!(
        UserData::try_from(0x0000_0009_0000_0001),
        Err(UserDataError::UnknownOperationType(UserDataOpTypeError(9)))
    );
    assert_eq!(
        UserData::try_from(17),
        Err(UserDataError::UnknownOperationType(UserDataOpTypeError(0)))
    );
}

#[test]
fn slots_are_handed_out_from_one_on() {
    let mut pool = BufferManager::new();
    assert_eq!(pool.free_count(), MAX_BUFFER_SLOTS);
    for n in 1..=8u32 {
        let (slot, buffer) = pool.allocate(4);
        assert_eq!(slot, n);
        assert!(buffer.is_empty());
        buffer.push(n as u8);
    }
    assert_eq!(pool.free_count(), 0);
    assert_eq!(pool.contents(3), Some(&[3u8][..]));
}

#[test]
fn lowest_free_slot_comes_back_first() {
    let mut pool = BufferManager::new();
    for _ in 0..5 {
        pool.allocate(0);
    }
    pool.free(4);
    pool.free(2);
    assert_eq!(pool.contents(2), None);
    assert_eq!(pool.free_count(), 5);
    assert_eq!(pool.allocate(1).0, 2);
    assert_eq!(pool.allocate(1).0, 4);
    assert_eq!(pool.allocate(1).0, 6);
}
