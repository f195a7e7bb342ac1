use poll_executor::completion::CompletionCell;
use poll_executor::poll::{Poll, WakeHandle};

#[test]
fn fresh_cell_registers_waiter_and_is_pending() {
    let mut cell = CompletionCell::new();
    assert!(!cell.is_completed());
    assert!(matches!(cell.poll(WakeHandle { task: 7 }), Poll::Pending));
    assert!(!cell.is_completed());
}

#[test]
fn signal_after_registration_wakes_that_waiter_once() {
    let mut cell = CompletionCell::new();
    assert!(matches!(cell.poll(WakeHandle { task: 1 }), Poll::Pending));
    assert_eq!(cell.signal(), Some(WakeHandle { task: 1 }));
    assert!(cell.is_completed());
    assert_eq!(cell.signal(), None);
}

#[test]
fn last_registration_wins() {
    let mut cell = CompletionCell::new();
    assert!(matches!(cell.poll(WakeHandle { task: 1 }), Poll::Pending));
    assert!(matches!(cell.poll(WakeHandle { task: 2 }), Poll::Pending));
    assert_eq!(cell.signal(), Some(WakeHandle { task: 2 }));
}

#[test]
fn signal_before_poll_is_not_lost() {
    let mut cell = CompletionCell::new();
    assert_eq!(cell.signal(), None);
    assert!(matches!(cell.poll(WakeHandle { task: 4 }), Poll::Ready(())));
    // Nothing was registered, so a later signal wakes nobody.
    assert_eq!(cell.signal(), None);
}

#[test]
fn ready_stays_ready() {
    let mut cell = CompletionCell::new();
    assert!(matches!(cell.poll(WakeHandle { task: 0 }), Poll::Pending));
    assert_eq!(cell.signal(), Some(WakeHandle { task: 0 }));
    for task in 0..5 {
        assert!(matches!(cell.poll(WakeHandle { task }), Poll::Ready(())));
        assert_eq!(cell.signal(), None);
    }
    assert!(cell.is_completed());
}
