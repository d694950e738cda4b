//! The bounded mailbox: capacity, backpressure and first-in first-out
//! delivery.

use jetbrains_search_provider::mailbox::{EnqueueOutcome, Mailbox, MAILBOX_CAPACITY};

#[test]
fn ninth_message_is_handed_back_not_dropped() {
    let mut mb: Mailbox<u32> = Mailbox::new();
    for i in 0..MAILBOX_CAPACITY as u32 {
        assert_eq!(mb.try_enqueue(i), EnqueueOutcome::Accepted);
    }
    assert_eq!(mb.len(), MAILBOX_CAPACITY);
    // the ninth sender must wait for a slot; its message comes back intact
    assert_eq!(mb.try_enqueue(99), EnqueueOutcome::MustWait(99));
    assert_eq!(mb.len(), MAILBOX_CAPACITY);
    // once a slot frees, the retry succeeds and nothing was lost
    assert_eq!(mb.dequeue(), Some(0));
    assert_eq!(mb.try_enqueue(99), EnqueueOutcome::Accepted);
    assert_eq!(mb.len(), MAILBOX_CAPACITY);
    let mut delivered = Vec::new();
    while let Some(m) = mb.dequeue() {
        delivered.push(m);
    }
    assert_eq!(delivered, vec![1, 2, 3, 4, 5, 6, 7, 99]);
}

#[test]
fn delivery_is_first_in_first_out() {
    let mut mb: Mailbox<Vec<u8>> = Mailbox::new();
    assert_eq!(mb.try_enqueue(b"first".to_vec()), EnqueueOutcome::Accepted);
    assert_eq!(mb.try_enqueue(b"second".to_vec()), EnqueueOutcome::Accepted);
    assert_eq!(mb.try_enqueue(b"third".to_vec()), EnqueueOutcome::Accepted);
    assert_eq!(mb.dequeue(), Some(b"first".to_vec()));
    assert_eq!(mb.dequeue(), Some(b"second".to_vec()));
    assert_eq!(mb.dequeue(), Some(b"third".to_vec()));
    assert_eq!(mb.dequeue(), None);
}

#[test]
fn empty_mailbox_delivers_nothing() {
    let mut mb: Mailbox<u32> = Mailbox::new();
    assert_eq!(mb.len(), 0);
    assert_eq!(mb.dequeue(), None);
    assert_eq!(mb.len(), 0);
}
