use kernel_core::keyboard::{add_scancode, enqueue_decoded, pop_key, KeyQueue, ScancodeDecoder};

#[test]
fn scancodes_for_hi_pop_in_order() {
    let mut decoder = ScancodeDecoder::new();
    let mut queue = KeyQueue::new();
    for code in [0x23u8, 0xa3, 0x17, 0x97] {
        add_scancode(&mut decoder, &mut queue, code);
    }
    assert_eq!(queue.len(), 2);
    assert_eq!(pop_key(&mut queue), Some('h'));
    assert_eq!(pop_key(&mut queue), Some('i'));
    assert!(queue.is_empty());
    assert_eq!(pop_key(&mut queue), None);
}

#[test]
fn key_release_and_shift_queue_nothing_alone() {
    let mut decoder = ScancodeDecoder::new();
    let mut queue = KeyQueue::new();
    add_scancode(&mut decoder, &mut queue, 0x2a);
    assert!(queue.is_empty());
    add_scancode(&mut decoder, &mut queue, 0x23);
    add_scancode(&mut decoder, &mut queue, 0xa3);
    add_scancode(&mut decoder, &mut queue, 0xaa);
    assert_eq!(pop_key(&mut queue), Some('H'));
    assert_eq!(pop_key(&mut queue), None);
}

#[test]
fn queue_is_first_in_first_out() {
    let mut queue = KeyQueue::new();
    for c in "kernel".chars() {
        queue.push(c);
    }
    let mut out = String::new();
    while let Some(c) = queue.pop() {
        out.push(c);
    }
    assert_eq!(out, "kernel");
}

#[test]
fn enqueue_decoded_only_queues_characters() {
    let mut queue = KeyQueue::new();
    enqueue_decoded(&mut queue, None);
    assert!(queue.is_empty());
    enqueue_decoded(&mut queue, Some('x'));
    enqueue_decoded(&mut queue, Some('y'));
    assert_eq!(pop_key(&mut queue), Some('x'));
    assert_eq!(pop_key(&mut queue), Some('y'));
}
