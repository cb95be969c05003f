use azure_gateway::queue::{QueueError, RWRoundQueue};

#[test]
fn round_queue_read_write_basic() {
    let mut q = RWRoundQueue::<u32>::new(4).unwrap();
    q.write_overwrite(1);
    q.write_overwrite(2);
    assert_eq!(q.try_read(), Some(1));
    assert_eq!(q.try_read(), Some(2));
    assert_eq!(q.try_read(), None);
}

#[test]
fn round_queue_overwrite_drops_oldest_when_full() {
    let mut q = RWRoundQueue::<u32>::new(4).unwrap();
    q.write_overwrite(1);
    q.write_overwrite(2);
    q.write_overwrite(3);
    assert!(q.write_overwrite(4));
    assert_eq!(q.try_read(), Some(2));
}

#[test]
fn round_queue_new_rejects_non_power_of_two() {
    assert!(RWRoundQueue::<u8>::new(3).is_err());
}

#[test]
fn every_refusal_has_its_reason_and_text() {
    let zero = RWRoundQueue::<u32>::new(0).err().unwrap();
    assert_eq!(zero, QueueError::ZeroCapacity);
    assert_eq!(zero.message(), "Capacity must be greater than 0");
    assert!(zero.is_invalid_input());
    for capacity in [3usize, 5, 6, 7, 9, 12, 100, 127, 129, usize::MAX] {
        let odd = RWRoundQueue::<u32>::new(capacity).err().unwrap();
        assert_eq!(odd, QueueError::NotPowerOfTwo);
        assert_eq!(odd.message(), "Capacity must be power of 2");
        assert!(odd.is_invalid_input());
    }
    let large = RWRoundQueue::<u64>::new(1usize << 62).err().unwrap();
    assert_eq!(large, QueueError::AllocationFailed);
    assert_eq!(large.message(), "Memory allocation failed");
    assert!(!large.is_invalid_input());
    let refused = RWRoundQueue::<u32>::with_reservation(8, Vec::new(), false);
    assert_eq!(refused.err(), Some(QueueError::AllocationFailed));
    assert!(RWRoundQueue::<u32>::with_reservation(8, Vec::new(), true).is_ok());
}

#[test]
fn powers_of_two_are_accepted() {
    for shift in 0..12u32 {
        let q = RWRoundQueue::<u8>::new(1usize << shift).unwrap();
        assert_eq!(q.capacity(), 1usize << shift);
        assert_eq!(q.len(), 0);
        assert!(q.is_empty());
        assert_eq!(q.start_ptr(), 0);
        assert_eq!(q.end_ptr(), 1usize << shift);
    }
}

#[test]
fn length_follows_writes_and_reads() {
    let mut queue = RWRoundQueue::<u32>::new(4).unwrap();
    assert_eq!(queue.len(), 0);
    queue.write_overwrite(10);
    queue.write_overwrite(20);
    assert_eq!(queue.len(), 2);
    assert!(!queue.is_empty());
    queue.try_read();
    assert_eq!(queue.len(), 1);
}

#[test]
fn writes_tell_whether_they_overwrote() {
    let mut queue = RWRoundQueue::<u32>::new(4).unwrap();
    assert_eq!(queue.write_overwrite(1), false);
    assert_eq!(queue.write_overwrite(2), false);
    assert_eq!(queue.write_overwrite(3), false);
    assert_eq!(queue.write_overwrite(4), true);
    assert_eq!(queue.try_read(), Some(2));
}

#[test]
fn batches_take_the_oldest_values() {
    let mut queue = RWRoundQueue::<u32>::new(8).unwrap();
    let (reader, mut writer) = queue.split();
    for i in 0..5 {
        writer.write(&mut queue, i);
    }
    assert_eq!(reader.read_batch(&mut queue, 2), vec![0, 1]);
    assert_eq!(reader.read_batch(&mut queue, 0), Vec::<u32>::new());
    assert_eq!(reader.read_batch(&mut queue, 10), vec![2, 3, 4]);
    assert_eq!(reader.read_batch(&mut queue, 5), Vec::<u32>::new());
    assert_eq!(reader.read_batch(&mut queue, usize::MAX), Vec::<u32>::new());
}

#[test]
fn ends_of_a_ring_work_on_it() {
    let mut queue = RWRoundQueue::<u32>::new(4).unwrap();
    let (reader, mut writer) = queue.split();
    assert_eq!(writer.capacity(), 4);
    assert!(reader.is_empty(&queue));
    assert_eq!(writer.write(&mut queue, 10), false);
    assert_eq!(writer.write(&mut queue, 20), false);
    assert_eq!(writer.write(&mut queue, 30), false);
    assert_eq!(writer.write(&mut queue, 40), true);
    assert_eq!(reader.len(&queue), 3);
    assert!(!reader.is_empty(&queue));
    assert_eq!(reader.read(&mut queue), Some(20));
    assert_eq!(reader.read(&mut queue), Some(30));
    assert_eq!(reader.read(&mut queue), Some(40));
    assert_eq!(reader.read(&mut queue), None);
}

#[test]
fn a_write_in_three_steps_is_a_write() {
    let mut queue = RWRoundQueue::<u32>::new(4).unwrap();
    let (reader, mut writer) = queue.split();
    for value in [7u32, 8, 9, 999] {
        let (slot, was_full) = writer.acquire_ptr(&queue).unwrap();
        assert_eq!(was_full, value == 999);
        queue.put_at(slot, value);
        writer.commit(&mut queue, was_full);
    }
    assert_eq!(reader.read_batch(&mut queue, 9), vec![8, 9, 999]);
}

#[test]
fn a_read_in_three_steps_is_a_read() {
    let mut queue = RWRoundQueue::<u32>::new(4).unwrap();
    assert_eq!(queue.acquire_read_ptr(), None);
    queue.write_overwrite(5);
    queue.write_overwrite(6);
    let slot = queue.acquire_read_ptr().unwrap();
    assert_eq!(queue.value_at(slot), 5);
    assert_eq!(queue.len(), 2);
    queue.commit_read();
    assert_eq!(queue.try_read(), Some(6));
}

#[test]
fn a_staged_value_waits_for_its_commit() {
    let mut queue = RWRoundQueue::<u32>::new(4).unwrap();
    let (slot, was_full) = queue.acquire_write_ptr().unwrap();
    assert_eq!((slot, was_full), (0, false));
    queue.put_at(slot, 1);
    assert!(queue.is_empty());
    queue.commit_write(was_full);
    assert_eq!(queue.len(), 1);
    assert_eq!(queue.acquire_write_ptr(), Some((1, false)));
}

#[test]
fn a_read_may_come_between_the_steps_of_a_write() {
    for read_first in [true, false] {
        let mut queue = RWRoundQueue::<u32>::new(4).unwrap();
        let (reader, mut writer) = queue.split();
        queue.write_overwrite(1);
        queue.write_overwrite(2);
        let (slot, was_full) = writer.acquire_ptr(&queue).unwrap();
        assert_eq!((slot, was_full), (2, false));
        if read_first {
            assert_eq!(reader.read(&mut queue), Some(1));
            queue.put_at(slot, 3);
        } else {
            queue.put_at(slot, 3);
            assert_eq!(reader.read(&mut queue), Some(1));
        }
        assert_eq!(writer.acquire_ptr(&queue), Some((2, false)));
        writer.commit(&mut queue, was_full);
        assert_eq!(reader.read_batch(&mut queue, 9), vec![2, 3]);
        // An empty read and a batch leave the next slot to write where it was.
        assert_eq!(reader.read(&mut queue), None);
        assert_eq!(writer.acquire_ptr(&queue), Some((3, false)));
    }
}

#[test]
fn a_read_between_may_leave_more_room_than_was_told() {
    let mut queue = RWRoundQueue::<u32>::new(4).unwrap();
    for value in [1u32, 2, 3] {
        queue.write_overwrite(value);
    }
    let (slot, was_full) = queue.acquire_write_ptr().unwrap();
    assert_eq!((slot, was_full), (3, true));
    queue.put_at(slot, 4);
    assert_eq!(queue.try_read(), Some(1));
    // The oldest value is given up, though the read has made room.
    queue.commit_write(was_full);
    assert_eq!(queue.len(), 2);
    assert_eq!(queue.try_read(), Some(3));
    assert_eq!(queue.try_read(), Some(4));
}

#[test]
fn slots_go_round_with_reads_and_writes() {
    let mut queue = RWRoundQueue::<u32>::new(4).unwrap();
    for value in 0..10u32 {
        queue.write_overwrite(value);
        let next = (value as usize + 1) % 4;
        assert_eq!(queue.acquire_write_ptr(), Some((next, false)));
        assert_eq!(queue.acquire_read_ptr(), Some(value as usize % 4));
        assert_eq!(queue.try_read(), Some(value));
        assert_eq!(queue.acquire_write_ptr(), Some((next, false)));
    }
    // A write into a full ring moves the reader on.
    for value in [20u32, 21, 22] {
        queue.write_overwrite(value);
    }
    assert_eq!(queue.acquire_read_ptr(), Some(2));
    assert!(queue.write_overwrite(23));
    assert_eq!(queue.acquire_read_ptr(), Some(3));
    assert_eq!(queue.try_read(), Some(21));
}

#[test]
fn a_ring_of_one_slot_holds_nothing() {
    let mut queue = RWRoundQueue::<u32>::new(1).unwrap();
    assert_eq!(queue.write_overwrite(1), false);
    assert_eq!(queue.write_overwrite(2), false);
    assert_eq!(queue.len(), 0);
    assert_eq!(queue.try_read(), None);
    let (_, mut writer) = queue.split();
    assert_eq!(writer.write(&mut queue, 3), false);
    assert_eq!(queue.acquire_write_ptr(), Some((0, true)));
}

#[test]
fn newest_values_stay_in_order_over_many_rounds() {
    let mut queue = RWRoundQueue::<u32>::new(8).unwrap();
    let (reader, mut writer) = queue.split();
    let mut given: Vec<u32> = Vec::new();
    for i in 0..100u32 {
        let full = reader.len(&queue) == 7;
        assert_eq!(writer.write(&mut queue, i), full);
        given.push(i);
        if given.len() > 7 {
            given.remove(0);
        }
        assert!(queue.len() < queue.capacity());
        let (slot, was_full) = writer.acquire_ptr(&queue).unwrap();
        assert!(queue.start_ptr() <= slot && slot < queue.end_ptr());
        assert_eq!(was_full, queue.len() == 7);
        let oldest = queue.acquire_read_ptr().unwrap();
        assert!(queue.start_ptr() <= oldest && oldest < queue.end_ptr());
        assert_ne!(oldest, slot);
        assert_eq!(queue.value_at(oldest), given[0]);
        if i % 5 == 0 {
            assert_eq!(reader.read(&mut queue), Some(given.remove(0)));
        }
        assert_eq!(reader.len(&queue), given.len());
    }
    assert_eq!(reader.read_batch(&mut queue, 100), given);
}
