use std::future::Future;
use std::pin::Pin;
use std::task::{Context, Poll, Waker};

use grammar_resolve::eventually::Eventually;

fn poll_once<F: Future<Output = ()>>(wait: Pin<&mut F>) -> Poll<()> {
    let mut context = Context::from_waker(Waker::noop());
    wait.poll(&mut context)
}

#[test]
fn read_and_write() {
    let mut v = Eventually::new();
    v.write(42);
    assert_eq!(v.read(), Some(42));
}

#[test]
#[should_panic]
fn read_without_write() {
    let v: Eventually<usize> = Eventually::new();
    assert_eq!(v.read().expect("should not even get here"), 42);
}

#[test]
fn a_new_cell_makes_its_reader_wait() {
    let cell: Eventually<String> = Eventually::new();
    assert_eq!(cell.read(), None);
    assert_eq!(cell.read(), None);
}

#[test]
fn every_read_gives_the_committed_value() {
    let mut cell = Eventually::new();
    cell.write(String::from("x"));
    assert_eq!(cell.read(), Some(String::from("x")));
    assert_eq!(cell.read(), Some(String::from("x")));
}

#[test]
fn a_later_write_replaces_an_earlier_one() {
    let mut cell = Eventually::new();
    cell.write(1u32);
    cell.write(2u32);
    assert_eq!(cell.read(), Some(2));
}

#[test]
fn a_cell_can_hold_an_unresolved_marker() {
    let mut cell: Eventually<Option<String>> = Eventually::new();
    cell.write(None);
    assert_eq!(cell.read(), Some(None));
}

#[test]
fn write_wakes_a_waiting_reader() {
    let mut cell = Eventually::new();
    let mut wait = Box::pin(cell.notifier().notified_owned());
    assert!(poll_once(wait.as_mut()).is_pending());
    cell.write(7u8);
    assert!(poll_once(wait.as_mut()).is_ready());
}

#[test]
fn write_wakes_every_waiting_reader() {
    let mut cell = Eventually::new();
    let mut first = Box::pin(cell.notifier().notified_owned());
    let mut second = Box::pin(cell.notifier().notified_owned());
    cell.write(7u8);
    assert!(poll_once(first.as_mut()).is_ready());
    assert!(poll_once(second.as_mut()).is_ready());
}

#[test]
fn a_reader_that_comes_after_the_write_is_not_woken_by_it() {
    let mut cell = Eventually::new();
    cell.write(7u8);
    let mut wait = Box::pin(cell.notifier().notified_owned());
    assert!(poll_once(wait.as_mut()).is_pending());
    assert_eq!(cell.read(), Some(7));
}

#[test]
fn each_overwrite_wakes_again() {
    let mut cell = Eventually::new();
    cell.write(1u8);
    let mut wait = Box::pin(cell.notifier().notified_owned());
    cell.write(2u8);
    assert!(poll_once(wait.as_mut()).is_ready());
    assert_eq!(cell.read(), Some(2));
}

#[test]
fn cells_do_not_share_their_signal() {
    let mut written: Eventually<u8> = Eventually::new();
    let other: Eventually<u8> = Eventually::new();
    let mut wait = Box::pin(other.notifier().notified_owned());
    written.write(1);
    assert!(poll_once(wait.as_mut()).is_pending());
}
