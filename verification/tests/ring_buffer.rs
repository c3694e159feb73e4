use rucore::mylib::ring_buffer::{AtomicRingBuf, RingBuf};

#[test]
fn ring_buffer_is_first_in_first_out() {
    let mut buffer: RingBuf<u32> = RingBuf::new(3);
    assert!(buffer.is_empty());
    assert_eq!(buffer.pop_front(), None);
    assert_eq!(buffer.push_back(1), Ok(()));
    assert_eq!(buffer.push_back(2), Ok(()));
    assert_eq!(buffer.push_back(3), Ok(()));
    assert_eq!(buffer.push_back(4), Err(4));
    assert_eq!(buffer.len(), 3);
    assert_eq!(buffer.pop_front(), Some(1));
    assert_eq!(buffer.push_back(4), Ok(()));
    assert_eq!(buffer.pop_front(), Some(2));
    assert_eq!(buffer.pop_front(), Some(3));
    assert_eq!(buffer.pop_front(), Some(4));
    assert_eq!(buffer.pop_front(), None);
    assert!(buffer.is_empty());
}

#[test]
fn ring_buffer_goes_round_many_times() {
    let mut buffer: RingBuf<usize> = RingBuf::new(4);
    let mut next_out = 0;
    for value in 0..100 {
        assert_eq!(buffer.push_back(value), Ok(()));
        if value % 3 != 0 {
            assert_eq!(buffer.pop_front(), Some(next_out));
            next_out += 1;
        }
        if buffer.len() == 4 {
            assert_eq!(buffer.push_back(1000), Err(1000));
            assert_eq!(buffer.pop_front(), Some(next_out));
            next_out += 1;
        }
    }
}

#[test]
fn ring_buffer_without_room() {
    let mut buffer: RingBuf<String> = RingBuf::new(0);
    assert!(buffer.is_empty());
    assert_eq!(buffer.push_back("a".to_string()), Err("a".to_string()));
    assert_eq!(buffer.pop_front(), None);
}

#[test]
fn last_item_is_changed_in_place() {
    let mut buffer: RingBuf<u32> = RingBuf::new(3);
    assert!(buffer.back_mut().is_none());
    assert!(buffer.push_back(1).is_ok());
    assert!(buffer.push_back(2).is_ok());
    assert_eq!(buffer.back_mut().map(|item| *item), Some(2));
    *buffer.back_mut().unwrap() = 20;
    // the slots go round: the last item lies in the first slot
    assert_eq!(buffer.pop_front(), Some(1));
    assert!(buffer.push_back(3).is_ok());
    assert!(buffer.push_back(4).is_ok());
    *buffer.back_mut().unwrap() += 40;
    assert_eq!(buffer.pop_front(), Some(20));
    assert_eq!(buffer.pop_front(), Some(3));
    assert_eq!(buffer.pop_front(), Some(44));
    assert!(buffer.back_mut().is_none());
}

#[test]
fn two_ended_buffer_keeps_one_slot_empty() {
    let mut buffer: AtomicRingBuf<u8> = AtomicRingBuf::new(4);
    assert_eq!(buffer.pop(), None);
    assert_eq!(buffer.push(1), Ok(()));
    assert_eq!(buffer.push(2), Ok(()));
    assert_eq!(buffer.push(3), Ok(()));
    // four slots hold three items
    assert_eq!(buffer.push(4), Err(4));
    assert_eq!(buffer.pop(), Some(1));
    assert_eq!(buffer.push(4), Ok(()));
    assert_eq!(buffer.push(5), Err(5));
    assert_eq!(buffer.pop(), Some(2));
    assert_eq!(buffer.pop(), Some(3));
    assert_eq!(buffer.pop(), Some(4));
    assert_eq!(buffer.pop(), None);
}

#[test]
fn two_ended_buffer_with_one_slot_holds_nothing() {
    let mut buffer: AtomicRingBuf<u8> = AtomicRingBuf::new(1);
    assert_eq!(buffer.push(1), Err(1));
    assert_eq!(buffer.pop(), None);
}
