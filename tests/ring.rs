use spsc_queue::{advance_read, advance_write, next_index};

#[test]
fn next_index_steps_and_wraps() {
    assert_eq!(next_index(0, 5), 1);
    assert_eq!(next_index(3, 5), 4);
    assert_eq!(next_index(4, 5), 0);
    assert_eq!(next_index(1, 2), 0);
}

#[test]
fn producer_refused_when_slot_after_write_is_read() {
    assert_eq!(advance_write(0, 2, 3), None);
    assert_eq!(advance_write(2, 1, 3), None);
    assert_eq!(advance_write(0, 0, 3), Some(1));
    assert_eq!(advance_write(1, 2, 3), Some(0));
}

#[test]
fn consumer_refused_when_cursors_meet() {
    assert_eq!(advance_read(1, 1, 4), None);
    assert_eq!(advance_read(3, 1, 4), Some(0));
    assert_eq!(advance_read(0, 2, 4), Some(1));
}
