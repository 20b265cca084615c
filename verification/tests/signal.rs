use remin::signal::{Signal, SignalBoard, WaitSignal};

#[test]
fn a_signal_is_raised_once_for_all_its_clones() {
    let mut board = SignalBoard::new();
    let first = Signal::new(&mut board);
    let second = Signal::new(&mut board);
    let clone = first.clone();
    assert!(!first.signaled(&board));
    assert!(!first.wait(&board));
    clone.signal(&mut board);
    assert!(first.signaled(&board));
    assert!(first.wait(&board));
    assert!(!second.signaled(&board));
}

#[test]
fn a_request_is_answered_by_a_holder_of_the_same_end() {
    let mut board = SignalBoard::new();
    let (receiver, responder) = WaitSignal::new(&mut board);
    let other_holder = receiver.clone();
    assert!(!other_holder.respond_if_requested(&mut board));
    assert!(!receiver.request_and_wait(&mut board));
    assert!(!responder.respond_if_requested(&mut board));
    assert!(!receiver.wait(&board));
    assert!(other_holder.respond_if_requested(&mut board));
    assert!(receiver.wait(&board));
}
