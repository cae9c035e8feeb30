use mio_popugos::abi::{PollFd, SysError};
use mio_popugos::event::{Event, POLLERR, POLLIN, POLLOUT, POLLPRI};
use mio_popugos::io_source::IoSourceState;
use mio_popugos::selector::{
    collect_events, interests_to_poll, keep_draining, poll_fds_for, wake_pipe_readable,
    Registration, SelectorState,
};
use mio_popugos::token::{Interest, Token};

fn tokens(events: &[Event]) -> Vec<(usize, i16)> {
    events.iter().map(|e| (e.token.0, e.events)).collect()
}

#[test]
fn interests_map_to_poll_bits() {
    assert_eq!(interests_to_poll(Interest::readable()), POLLIN);
    assert_eq!(interests_to_poll(Interest::writable()), POLLOUT);
    assert_eq!(interests_to_poll(Interest::priority()), POLLPRI);
    assert_eq!(
        interests_to_poll(Interest::readable().add(Interest::writable()).add(Interest::priority())),
        POLLIN | POLLOUT | POLLPRI
    );
}

#[test]
fn register_refuses_a_descriptor_twice() {
    let mut s = SelectorState::new(3, 4);
    assert_eq!(s.register(10, Token(1), Interest::readable()), Ok(()));
    assert_eq!(s.register(10, Token(2), Interest::writable()), Err(SysError::AlreadyExists));
    assert_eq!(s.register(11, Token(2), Interest::writable()), Ok(()));
}

#[test]
fn reregister_and_deregister_need_a_registration() {
    let mut s = SelectorState::new(3, 4);
    assert_eq!(s.reregister(10, Token(1), Interest::readable()), Err(SysError::NotFound));
    assert_eq!(s.deregister(10), Err(SysError::NotFound));
    assert_eq!(s.register(10, Token(1), Interest::readable()), Ok(()));
    assert_eq!(s.reregister(10, Token(9), Interest::writable()), Ok(()));
    let (regs, _, _) = s.prepare_poll(None);
    assert_eq!(regs, vec![Registration { fd: 10, token: Token(9), interests: Interest::writable() }]);
    assert_eq!(s.deregister(10), Ok(()));
    assert_eq!(s.deregister(10), Err(SysError::NotFound));
}

#[test]
fn deregister_moves_the_last_registration_into_place() {
    let mut s = SelectorState::new(3, 4);
    for fd in [10, 11, 12] {
        s.register(fd, Token(fd as usize), Interest::readable()).unwrap();
    }
    s.deregister(10).unwrap();
    let (regs, _, _) = s.prepare_poll(None);
    let fds: Vec<i32> = regs.iter().map(|r| r.fd).collect();
    assert_eq!(fds, vec![12, 11]);
}

#[test]
fn register_then_deregister_restores_the_table() {
    let mut s = SelectorState::new(3, 4);
    s.register(20, Token(2), Interest::readable()).unwrap();
    s.register(21, Token(3), Interest::writable()).unwrap();
    s.deregister(21).unwrap();
    let (regs, _, _) = s.prepare_poll(None);
    assert_eq!(regs, vec![Registration { fd: 20, token: Token(2), interests: Interest::readable() }]);
}

#[test]
fn poll_entries_start_with_the_wake_pipe() {
    let regs = vec![
        Registration { fd: 10, token: Token(1), interests: Interest::readable() },
        Registration { fd: 11, token: Token(2), interests: Interest::writable() },
    ];
    let fds = poll_fds_for(3, &regs);
    assert_eq!(
        fds,
        vec![
            PollFd { fd: 3, events: POLLIN, revents: 0 },
            PollFd { fd: 10, events: POLLIN, revents: 0 },
            PollFd { fd: 11, events: POLLOUT, revents: 0 },
        ]
    );
}

#[test]
fn prepare_poll_uses_zero_timeout_while_woken() {
    let mut s = SelectorState::new(3, 4);
    let (_, fds, ms) = s.prepare_poll(Some((2, 5)));
    assert_eq!(fds, vec![PollFd { fd: 3, events: POLLIN, revents: 0 }]);
    assert_eq!(ms, 2001);
    assert_eq!(s.prepare_poll(None).2, -1);
    assert!(s.wake(Token(8)));
    assert_eq!(s.prepare_poll(None).2, 0);
    assert_eq!(s.prepare_poll(Some((2, 5))).2, 0);
}

#[test]
fn wake_writes_once_until_reported() {
    let mut s = SelectorState::new(3, 4);
    assert!(s.wake(Token(1)));
    assert!(!s.wake(Token(2)));
    let polled = vec![PollFd { fd: 3, events: POLLIN, revents: POLLIN }];
    let events = s.finish_select(&Vec::new(), &polled);
    assert_eq!(tokens(&events), vec![(2, POLLIN)]);
    assert!(s.finish_select(&Vec::new(), &polled).is_empty());
    assert!(s.wake(Token(3)));
}

#[test]
fn events_report_ready_registrations_in_order_after_the_wake() {
    let regs = vec![
        Registration { fd: 10, token: Token(1), interests: Interest::readable() },
        Registration { fd: 11, token: Token(2), interests: Interest::writable() },
        Registration { fd: 12, token: Token(3), interests: Interest::readable() },
    ];
    let polled = vec![
        PollFd { fd: 3, events: POLLIN, revents: 0 },
        PollFd { fd: 10, events: POLLIN, revents: POLLIN },
        PollFd { fd: 11, events: POLLOUT, revents: 0 },
        PollFd { fd: 12, events: POLLIN, revents: POLLERR },
    ];
    let events = collect_events(Some(Token(99)), &regs, &polled);
    assert_eq!(tokens(&events), vec![(99, POLLIN), (1, POLLIN), (3, POLLERR)]);
    let events = collect_events(None, &regs, &polled);
    assert_eq!(tokens(&events), vec![(1, POLLIN), (3, POLLERR)]);
}

#[test]
fn events_stop_at_the_shorter_of_registrations_and_entries() {
    let regs = vec![Registration { fd: 10, token: Token(1), interests: Interest::readable() }];
    let polled = vec![
        PollFd { fd: 3, events: POLLIN, revents: 0 },
        PollFd { fd: 10, events: POLLIN, revents: POLLIN },
        PollFd { fd: 11, events: POLLIN, revents: POLLIN },
    ];
    assert_eq!(tokens(&collect_events(None, &regs, &polled)), vec![(1, POLLIN)]);
    assert!(collect_events(None, &regs, &polled[..1].to_vec()).is_empty());
}

#[test]
fn wake_pipe_drained_only_when_readable() {
    assert!(wake_pipe_readable(&vec![PollFd { fd: 3, events: POLLIN, revents: POLLIN | POLLERR }]));
    assert!(!wake_pipe_readable(&vec![PollFd { fd: 3, events: POLLIN, revents: POLLERR }]));
    assert!(keep_draining(Ok(64)));
    assert!(!keep_draining(Ok(0)));
    assert!(!keep_draining(Err(SysError::Os(11))));
}

#[test]
fn io_source_registers_once() {
    let mut s = SelectorState::new(3, 4);
    let mut src = IoSourceState::new();
    assert_eq!(src.register(&mut s, Token(1), Interest::readable(), 10), Ok(()));
    assert_eq!(src.register(&mut s, Token(1), Interest::readable(), 11), Err(SysError::AlreadyExists));
    assert_eq!(src.reregister(&mut s, Token(5), Interest::writable(), 10), Ok(()));
    assert_eq!(src.deregister(&mut s, 10), Ok(()));
    assert_eq!(s.prepare_poll(None).0, vec![]);
    assert_eq!(src.register(&mut s, Token(1), Interest::readable(), 10), Ok(()));
}

#[test]
fn io_source_register_fails_when_descriptor_taken() {
    let mut s = SelectorState::new(3, 4);
    s.register(10, Token(7), Interest::readable()).unwrap();
    let mut src = IoSourceState::new();
    assert_eq!(src.register(&mut s, Token(1), Interest::readable(), 10), Err(SysError::AlreadyExists));
    // The failed source is not registered, so it may try again elsewhere.
    assert_eq!(src.register(&mut s, Token(1), Interest::readable(), 12), Ok(()));
}

#[test]
fn io_source_release_deregisters_if_still_registered() {
    let mut s = SelectorState::new(3, 4);
    let mut src = IoSourceState::new();
    src.register(&mut s, Token(1), Interest::readable(), 10).unwrap();
    src.release(&mut s);
    assert_eq!(s.prepare_poll(None).0, vec![]);
    s.register(10, Token(2), Interest::readable()).unwrap();
    src.release(&mut s);
    assert_eq!(s.prepare_poll(None).0.len(), 1);
}

#[test]
fn pipe_ends_are_kept() {
    let s = SelectorState::new(5, 6);
    assert_eq!((s.wake_reader(), s.wake_writer()), (5, 6));
}

#[test]
fn io_source_release_moves_the_last_registration_into_place() {
    let mut s = SelectorState::new(3, 4);
    let mut src = IoSourceState::new();
    src.register(&mut s, Token(1), Interest::readable(), 10).unwrap();
    s.register(11, Token(2), Interest::readable()).unwrap();
    s.register(12, Token(3), Interest::readable()).unwrap();
    src.release(&mut s);
    let fds: Vec<i32> = s.prepare_poll(None).0.iter().map(|r| r.fd).collect();
    assert_eq!(fds, vec![12, 11]);
}

#[test]
fn a_taken_wake_is_not_reported_again() {
    let mut s = SelectorState::new(3, 4);
    s.register(10, Token(1), Interest::readable()).unwrap();
    s.wake(Token(7));
    let (regs, _, _) = s.prepare_poll(None);
    let polled = vec![
        PollFd { fd: 3, events: POLLIN, revents: POLLIN },
        PollFd { fd: 10, events: POLLIN, revents: 0 },
    ];
    assert_eq!(tokens(&s.finish_select(&regs, &polled)), vec![(7, POLLIN)]);
    let (regs, _, ms) = s.prepare_poll(Some((1, 0)));
    assert_eq!(ms, 1000);
    let polled = vec![
        PollFd { fd: 3, events: POLLIN, revents: 0 },
        PollFd { fd: 10, events: POLLIN, revents: POLLIN },
    ];
    assert_eq!(tokens(&s.finish_select(&regs, &polled)), vec![(1, POLLIN)]);
}

#[test]
fn the_latest_wake_token_wins() {
    let mut s = SelectorState::new(3, 4);
    s.register(10, Token(1), Interest::readable()).unwrap();
    assert!(s.wake(Token(5)));
    assert!(!s.wake(Token(6)));
    let (regs, _, ms) = s.prepare_poll(None);
    assert_eq!(ms, 0);
    let polled = vec![
        PollFd { fd: 3, events: POLLIN, revents: POLLIN },
        PollFd { fd: 10, events: POLLIN, revents: POLLIN },
    ];
    assert_eq!(tokens(&s.finish_select(&regs, &polled)), vec![(6, POLLIN), (1, POLLIN)]);
}
