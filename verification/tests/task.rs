use xchain::task::TaskMessageBox;

#[test]
fn messages_come_out_in_send_order() {
    let mut mbox: TaskMessageBox<u32> = TaskMessageBox::new();
    mbox.send(1);
    mbox.send(2);
    mbox.send(3);
    assert_eq!(mbox.len(), 3);
    assert_eq!(mbox.next_message(), Some(1));
    assert_eq!(mbox.next_message(), Some(2));
    assert_eq!(mbox.next_message(), Some(3));
    assert_eq!(mbox.next_message(), None);
}

#[test]
fn interleaved_senders_each_keep_their_own_order() {
    // two callers share the same box; however their sends interleave,
    // the receiver sees each caller's stream in its own send order
    let mut mbox: TaskMessageBox<(&str, u32)> = TaskMessageBox::new();
    mbox.send(("a", 1));
    mbox.send(("b", 1));
    mbox.send(("a", 2));
    mbox.send(("b", 2));
    mbox.send(("a", 3));

    let mut seen_a = Vec::new();
    let mut seen_b = Vec::new();
    while let Some((who, n)) = mbox.next_message() {
        if who == "a" {
            seen_a.push(n);
        } else {
            seen_b.push(n);
        }
    }
    assert_eq!(seen_a, vec![1, 2, 3]);
    assert_eq!(seen_b, vec![1, 2]);
}

#[test]
fn receiving_from_an_empty_box_yields_nothing() {
    let mut mbox: TaskMessageBox<u8> = TaskMessageBox::new();
    assert_eq!(mbox.next_message(), None);
    mbox.send(9);
    assert_eq!(mbox.next_message(), Some(9));
    assert_eq!(mbox.next_message(), None);
}
