use kvmesh::buffer::MessageBuffer;
use kvmesh::message::{ping_message, Message};

fn numbered(serial: Option<u32>, timestamp: &str) -> Message {
    let mut msg = ping_message(timestamp);
    msg.serial_number = serial;
    msg
}

fn add(buffer: &mut MessageBuffer, serial: u32) -> Vec<u32> {
    let msg = numbered(Some(serial), "t");
    assert!(buffer.accepts(&msg));
    buffer.add_message(msg).iter().map(|m| m.serial_number.unwrap()).collect()
}

#[test]
fn messages_in_order_come_back_at_once() {
    let mut buffer = MessageBuffer::new();
    assert_eq!(buffer.next_expected(), 1);
    assert_eq!(add(&mut buffer, 1), vec![1]);
    assert_eq!(add(&mut buffer, 2), vec![2]);
    assert_eq!(buffer.next_expected(), 3);
}

#[test]
fn early_messages_wait_for_the_gap_to_close() {
    let mut buffer = MessageBuffer::new();
    let none: Vec<u32> = vec![];
    assert_eq!(add(&mut buffer, 3), none);
    assert_eq!(add(&mut buffer, 2), none);
    assert_eq!(add(&mut buffer, 5), none);
    assert_eq!(add(&mut buffer, 1), vec![1, 2, 3]);
    assert_eq!(buffer.next_expected(), 4);
    assert_eq!(add(&mut buffer, 4), vec![4, 5]);
    assert_eq!(buffer.next_expected(), 6);
}

#[test]
fn old_messages_are_dropped() {
    let mut buffer = MessageBuffer::new();
    let none: Vec<u32> = vec![];
    add(&mut buffer, 1);
    assert_eq!(add(&mut buffer, 1), none);
    assert_eq!(add(&mut buffer, 0), none);
    assert_eq!(buffer.next_expected(), 2);
}

#[test]
fn messages_without_number_are_dropped() {
    let mut buffer = MessageBuffer::new();
    assert!(buffer.add_message(numbered(None, "t")).is_empty());
    assert_eq!(buffer.next_expected(), 1);
}

#[test]
fn later_copy_of_an_early_message_replaces_the_first() {
    let mut buffer = MessageBuffer::new();
    buffer.add_message(numbered(Some(2), "first"));
    buffer.add_message(numbered(Some(2), "second"));
    let ready = buffer.add_message(numbered(Some(1), "t"));
    assert_eq!(ready.len(), 2);
    assert_eq!(ready[1].timestamp, "second");
}
