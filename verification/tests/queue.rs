use kernel_core::error::OsErrorCode;
use kernel_core::queue::{ArrayQueue, Message};

#[test]
fn new_queue_is_empty() {
    let mut q: ArrayQueue<u32> = ArrayQueue::new(vec![0; 8]);
    assert_eq!(q.count(), 0);
    let r = q.pop();
    assert_eq!(r.unwrap_err().code, OsErrorCode::Empty);
}

#[test]
fn capacity_pushes_succeed_then_full() {
    let mut q: ArrayQueue<u32> = ArrayQueue::new(vec![0; 8]);
    for i in 0..8 {
        assert!(q.push(i).is_ok());
    }
    assert_eq!(q.count(), 8);
    let r = q.push(99);
    assert_eq!(r.unwrap_err().code, OsErrorCode::Full);
    assert_eq!(q.count(), 8);
    assert_eq!(*q.pop().unwrap(), 0);
    assert!(q.push(99).is_ok());
    assert_eq!(q.count(), 8);
}

#[test]
fn fifo_order_holds() {
    let mut q: ArrayQueue<char> = ArrayQueue::new(vec![' '; 3]);
    assert!(q.push('a').is_ok());
    assert!(q.push('b').is_ok());
    assert!(q.push('c').is_ok());
    assert_eq!(*q.pop().unwrap(), 'a');
    assert_eq!(*q.pop().unwrap(), 'b');
    assert_eq!(*q.pop().unwrap(), 'c');
    assert_eq!(q.pop().unwrap_err().code, OsErrorCode::Empty);
}

#[test]
fn four_slot_scenario() {
    let mut q: ArrayQueue<u32> = ArrayQueue::new(vec![0; 4]);
    assert!(q.push(11).is_ok());
    assert!(q.push(22).is_ok());
    assert!(q.push(33).is_ok());
    assert!(q.push(44).is_ok());
    assert_eq!(q.push(55).unwrap_err().code, OsErrorCode::Full);
    assert_eq!(*q.pop().unwrap(), 11);
    assert!(q.push(55).is_ok());
    assert_eq!(*q.pop().unwrap(), 22);
    assert_eq!(*q.pop().unwrap(), 33);
    assert_eq!(*q.pop().unwrap(), 44);
    assert_eq!(*q.pop().unwrap(), 55);
    assert_eq!(q.count(), 0);
}

#[test]
fn cursors_wrap_around() {
    let mut q: ArrayQueue<u32> = ArrayQueue::new(vec![0; 2]);
    for round in 0..5 {
        assert!(q.push(round).is_ok());
        assert!(q.push(round + 100).is_ok());
        assert_eq!(*q.pop().unwrap(), round);
        assert_eq!(*q.pop().unwrap(), round + 100);
    }
    assert_eq!(q.count(), 0);
}

#[test]
fn zero_capacity_rejects_push() {
    let mut q: ArrayQueue<u32> = ArrayQueue::new(Vec::new());
    assert_eq!(q.push(1).unwrap_err().code, OsErrorCode::Full);
    assert_eq!(q.pop().unwrap_err().code, OsErrorCode::Empty);
}

#[test]
fn carries_interrupt_messages() {
    let mut q: ArrayQueue<Message> = ArrayQueue::new(vec![Message::InterruptXhci; 2]);
    assert!(q.push(Message::InterruptXhci).is_ok());
    assert_eq!(*q.pop().unwrap(), Message::InterruptXhci);
}
