use vstd::prelude::*;

use crate::abi::{poll_timeout_ms, poll_timeout_ms_spec, PollFd, SysError, NANOS_PER_SEC};
use crate::event::{flag_set, Event, POLLIN, POLLOUT, POLLPRI};
use crate::token::{Interest, Token, PRIORITY_BIT, READABLE_BIT, WRITABLE_BIT};

verus! {

/// The poll bits a registration with interest bits `bits` asks for.
pub open spec fn interest_poll_bits(bits: u8) -> i16 {
    (if bits & READABLE_BIT != 0 {
        POLLIN
    } else {
        0i16
    }) | (if bits & WRITABLE_BIT != 0 {
        POLLOUT
    } else {
        0i16
    }) | (if bits & PRIORITY_BIT != 0 {
        POLLPRI
    } else {
        0i16
    })
}

/// The poll bits to wait for on a source registered with `interests`.
pub fn interests_to_poll(interests: Interest) -> (r: i16)
    ensures
        r == interest_poll_bits(interests@),
        flag_set(r, POLLIN) == (interests@ & READABLE_BIT != 0),
        flag_set(r, POLLOUT) == (interests@ & WRITABLE_BIT != 0),
        flag_set(r, POLLPRI) == (interests@ & PRIORITY_BIT != 0),
        r & !(POLLIN | POLLOUT | POLLPRI) == 0,
{
    let readable: i16 = if interests.is_readable() {
        POLLIN
    } else {
        0
    };
    let writable: i16 = if interests.is_writable() {
        POLLOUT
    } else {
        0
    };
    let priority: i16 = if interests.is_priority() {
        POLLPRI
    } else {
        0
    };
    let events: i16 = readable | writable | priority;
    let ghost b = interests@;
    proof {
        law_interest_readiness(b);
    }
    assert(interest_poll_bits(b) & !(POLLIN | POLLOUT | POLLPRI) == 0) by (bit_vector);
    events
}


/// An event source registered with a selector: its descriptor, the token its
/// events carry, and the readiness it waits for.
#[derive(Debug, Clone, Copy, PartialEq, Eq, Structural)]
pub struct Registration {
    pub fd: i32,
    pub token: Token,
    pub interests: Interest,
}

/// Whether some registration in `regs` is for descriptor `fd`.
pub open spec fn has_fd(regs: Seq<Registration>, fd: i32) -> bool {
    exists|i: int| 0 <= i < regs.len() && (#[trigger] regs[i]).fd == fd
}

/// No descriptor is registered twice.
pub open spec fn fds_unique(regs: Seq<Registration>) -> bool {
    forall|i: int, j: int|
        0 <= i < regs.len() && 0 <= j < regs.len() && i != j ==> (#[trigger] regs[i]).fd != (
        #[trigger] regs[j]).fd
}

/// The position of the registration for `fd` in `regs`.
pub open spec fn fd_position(regs: Seq<Registration>, fd: i32) -> int {
    choose|i: int| 0 <= i < regs.len() && (#[trigger] regs[i]).fd == fd
}

/// The registrations as a map from descriptor to token and interest.
pub open spec fn registration_map(regs: Seq<Registration>) -> Map<i32, (Token, Interest)> {
    Map::new(
        |fd: i32| has_fd(regs, fd),
        |fd: i32| (regs[fd_position(regs, fd)].token, regs[fd_position(regs, fd)].interests),
    )
}

/// In a table without repeated descriptors, the position of a descriptor is
/// the one index that holds it.
pub proof fn lemma_fd_position(regs: Seq<Registration>, i: int)
    requires
        fds_unique(regs),
        0 <= i < regs.len(),
    ensures
        has_fd(regs, regs[i].fd),
        fd_position(regs, regs[i].fd) == i,
{
    let fd = regs[i].fd;
    assert(regs[i].fd == fd);
    let j = fd_position(regs, fd);
    assert(regs[j].fd == fd);
}

/// Appending a registration for a new descriptor adds one entry to the map.
proof fn lemma_map_push(regs: Seq<Registration>, r: Registration)
    requires
        fds_unique(regs),
        !has_fd(regs, r.fd),
    ensures
        fds_unique(regs.push(r)),
        registration_map(regs.push(r)) == registration_map(regs).insert(
            r.fd,
            (r.token, r.interests),
        ),
{
    let pushed = regs.push(r);
    assert(fds_unique(pushed)) by {
        assert forall|i: int, j: int|
            0 <= i < pushed.len() && 0 <= j < pushed.len() && i != j implies (
            #[trigger] pushed[i]).fd != (#[trigger] pushed[j]).fd by {
            if i < regs.len() && j < regs.len() {
                assert(regs[i] == pushed[i] && regs[j] == pushed[j]);
            } else if i < regs.len() {
                assert(regs[i] == pushed[i]);
            } else {
                assert(regs[j] == pushed[j]);
            }
        }
    }
    let m1 = registration_map(pushed);
    let m2 = registration_map(regs).insert(r.fd, (r.token, r.interests));
    assert forall|fd: i32| m1.dom().contains(fd) <==> m2.dom().contains(fd) by {
        if has_fd(pushed, fd) {
            let k = choose|k: int| 0 <= k < pushed.len() && (#[trigger] pushed[k]).fd == fd;
            if k < regs.len() {
                assert(regs[k] == pushed[k]);
            }
        }
        if has_fd(regs, fd) {
            let k = choose|k: int| 0 <= k < regs.len() && (#[trigger] regs[k]).fd == fd;
            assert(regs[k] == pushed[k]);
        }
        if fd == r.fd {
            assert(pushed[regs.len() as int] == r);
        }
    }
    assert forall|fd: i32| #[trigger] m1.dom().contains(fd) implies m1[fd] == m2[fd] by {
        let k = choose|k: int| 0 <= k < pushed.len() && (#[trigger] pushed[k]).fd == fd;
        lemma_fd_position(pushed, k);
        if k < regs.len() {
            assert(regs[k] == pushed[k]);
            lemma_fd_position(regs, k);
        }
    }
    assert(m1 =~= m2);
}


/// Replacing the registration at `i` by one for the same descriptor changes
/// only that descriptor's entry in the map.
proof fn lemma_map_update(regs: Seq<Registration>, i: int, r: Registration)
    requires
        fds_unique(regs),
        0 <= i < regs.len(),
        regs[i].fd == r.fd,
    ensures
        fds_unique(regs.update(i, r)),
        registration_map(regs.update(i, r)) == registration_map(regs).insert(
            r.fd,
            (r.token, r.interests),
        ),
{
    let upd = regs.update(i, r);
    assert(fds_unique(upd)) by {
        assert forall|a: int, b: int|
            0 <= a < upd.len() && 0 <= b < upd.len() && a != b implies (#[trigger] upd[a]).fd != (
            #[trigger] upd[b]).fd by {
            assert(regs[a].fd == upd[a].fd);
            assert(regs[b].fd == upd[b].fd);
        }
    }
    let m1 = registration_map(upd);
    let m2 = registration_map(regs).insert(r.fd, (r.token, r.interests));
    assert forall|fd: i32| m1.dom().contains(fd) <==> m2.dom().contains(fd) by {
        if has_fd(upd, fd) {
            let k = choose|k: int| 0 <= k < upd.len() && (#[trigger] upd[k]).fd == fd;
            assert(regs[k].fd == upd[k].fd);
        }
        if has_fd(regs, fd) {
            let k = choose|k: int| 0 <= k < regs.len() && (#[trigger] regs[k]).fd == fd;
            assert(regs[k].fd == upd[k].fd);
        }
        if fd == r.fd {
            assert(upd[i] == r);
        }
    }
    assert forall|fd: i32| #[trigger] m1.dom().contains(fd) implies m1[fd] == m2[fd] by {
        let k = choose|k: int| 0 <= k < upd.len() && (#[trigger] upd[k]).fd == fd;
        lemma_fd_position(upd, k);
        if k != i {
            assert(regs[k] == upd[k]);
            lemma_fd_position(regs, k);
        }
    }
    assert(m1 =~= m2);
}

/// Moving the last registration into the place of the one at `i` (and
/// dropping the last place) removes that descriptor from the map.
proof fn lemma_map_swap_remove(regs: Seq<Registration>, i: int)
    requires
        fds_unique(regs),
        0 <= i < regs.len(),
    ensures
        fds_unique(regs.update(i, regs.last()).drop_last()),
        registration_map(regs.update(i, regs.last()).drop_last()) == registration_map(
            regs,
        ).remove(regs[i].fd),
{
    let n = regs.len() - 1;
    let rem = regs.update(i, regs.last()).drop_last();
    // Each place of `rem` holds the registration of one place of `regs` other than `i`.
    assert forall|a: int| 0 <= a < rem.len() implies #[trigger] rem[a] == regs[if a == i {
        n
    } else {
        a
    }] by {}
    assert(fds_unique(rem)) by {
        assert forall|a: int, b: int|
            0 <= a < rem.len() && 0 <= b < rem.len() && a != b implies (#[trigger] rem[a]).fd != (
            #[trigger] rem[b]).fd by {
            let sa = if a == i {
                n
            } else {
                a
            };
            let sb = if b == i {
                n
            } else {
                b
            };
            assert(rem[a] == regs[sa]);
            assert(rem[b] == regs[sb]);
        }
    }
    let gone = regs[i].fd;
    let m1 = registration_map(rem);
    let m2 = registration_map(regs).remove(gone);
    assert forall|fd: i32| m1.dom().contains(fd) <==> m2.dom().contains(fd) by {
        if has_fd(rem, fd) {
            let k = choose|k: int| 0 <= k < rem.len() && (#[trigger] rem[k]).fd == fd;
            let sk = if k == i {
                n
            } else {
                k
            };
            assert(rem[k] == regs[sk]);
            assert(sk != i);
            assert(regs[sk].fd != regs[i].fd);
        }
        if has_fd(regs, fd) && fd != gone {
            let k = choose|k: int| 0 <= k < regs.len() && (#[trigger] regs[k]).fd == fd;
            assert(k != i);
            if k == n {
                assert(rem[i] == regs[n]);
            } else {
                assert(rem[k] == regs[k]);
            }
        }
    }
    assert forall|fd: i32| #[trigger] m1.dom().contains(fd) implies m1[fd] == m2[fd] by {
        let k = choose|k: int| 0 <= k < rem.len() && (#[trigger] rem[k]).fd == fd;
        lemma_fd_position(rem, k);
        let sk = if k == i {
            n
        } else {
            k
        };
        assert(rem[k] == regs[sk]);
        lemma_fd_position(regs, sk);
    }
    assert(m1 =~= m2);
}


/// The entries handed to `poll(2)`: first the read end of the wake pipe,
/// waiting for input, then one entry per registration, in order, waiting for
/// the readiness it is registered for.
pub open spec fn poll_fds_spec(wake_reader: i32, regs: Seq<Registration>) -> Seq<PollFd> {
    seq![PollFd { fd: wake_reader, events: POLLIN, revents: 0 }] + regs.map_values(
        |r: Registration| PollFd { fd: r.fd, events: interest_poll_bits(r.interests@), revents: 0 },
    )
}

/// The events of the first `n` registrations, whose poll entries follow the
/// wake entry in `polled`: one event per registration whose entry came back
/// with some bit set, carrying its token and those bits, in order.
pub open spec fn ready_events(regs: Seq<Registration>, polled: Seq<PollFd>, n: nat) -> Seq<Event>
    decreases n,
{
    if n == 0 {
        seq![]
    } else {
        let prev = ready_events(regs, polled, (n - 1) as nat);
        let i = n - 1;
        if polled[i + 1].revents != 0 {
            prev.push(Event { token: regs[i].token, events: polled[i + 1].revents })
        } else {
            prev
        }
    }
}

/// The number of registrations that have a poll entry in `polled`.
pub open spec fn polled_count(regs: Seq<Registration>, polled: Seq<PollFd>) -> nat {
    if regs.len() <= polled.len() - 1 {
        regs.len()
    } else {
        (polled.len() - 1) as nat
    }
}

/// What one round of selection reports: the pending wake-up, if any, as a
/// readable event for its token, then the ready registrations in order.
pub open spec fn select_events(
    wake: Option<Token>,
    regs: Seq<Registration>,
    polled: Seq<PollFd>,
) -> Seq<Event> {
    (match wake {
        Some(t) => seq![Event { token: t, events: POLLIN }],
        None => seq![],
    }) + ready_events(regs, polled, polled_count(regs, polled))
}

/// The events of one round of selection, from the pending wake-up, the
/// registrations that were polled, and the entries `poll(2)` filled in.
pub fn collect_events(wake: Option<Token>, regs: &Vec<Registration>, polled: &Vec<PollFd>) -> (r:
    Vec<Event>)
    requires
        polled.len() >= 1,
    ensures
        r@ == select_events(wake, regs@, polled@),
{
    let mut events: Vec<Event> = Vec::new();
    if let Some(token) = wake {
        events.push(Event { token, events: POLLIN });
    }
    let ghost head = events@;
    let n: usize = if regs.len() <= polled.len() - 1 {
        regs.len()
    } else {
        polled.len() - 1
    };
    let mut i: usize = 0;
    while i < n
        invariant
            n == polled_count(regs@, polled@),
            n <= regs.len(),
            n + 1 <= polled.len(),
            i <= n,
            head == (match wake {
                Some(t) => seq![Event { token: t, events: POLLIN }],
                None => seq![],
            }),
            events@ == head + ready_events(regs@, polled@, i as nat),
        decreases n - i,
    {
        let revents = polled[i + 1].revents;
        if revents != 0 {
            events.push(Event { token: regs[i].token, events: revents });
        }
        i = i + 1;
        assert(events@ =~= head + ready_events(regs@, polled@, i as nat));
    }
    events
}

/// Whether the wake pipe came back readable, so that it must be drained.
pub fn wake_pipe_readable(polled: &Vec<PollFd>) -> (r: bool)
    requires
        polled.len() >= 1,
    ensures
        r == flag_set(polled[0].revents, POLLIN),
{
    let e = polled[0].revents;
    assert((e & POLLIN != 0) == (e & POLLIN == POLLIN)) by (bit_vector);
    e & POLLIN != 0
}

/// Whether draining the wake pipe goes on after a read that returned
/// `read`: only while reads succeed with some bytes.
pub fn keep_draining(read: Result<usize, SysError>) -> (r: bool)
    ensures
        r == (read matches Ok(n) && n != 0),
{
    match read {
        Ok(n) => n != 0,
        Err(_) => false,
    }
}


/// The entries to hand to `poll(2)` for the wake pipe's read end
/// `wake_reader` and the registrations `regs`.
pub fn poll_fds_for(wake_reader: i32, regs: &Vec<Registration>) -> (r: Vec<PollFd>)
    ensures
        r@ == poll_fds_spec(wake_reader, regs@),
{
    let mut fds: Vec<PollFd> = Vec::with_capacity(regs.len());
    fds.push(PollFd { fd: wake_reader, events: POLLIN, revents: 0 });
    let mut i: usize = 0;
    while i < regs.len()
        invariant
            i <= regs.len(),
            fds@ == poll_fds_spec(wake_reader, regs@.take(i as int)),
        decreases regs.len() - i,
    {
        let reg = regs[i];
        fds.push(PollFd { fd: reg.fd, events: interests_to_poll(reg.interests), revents: 0 });
        assert(regs@.take(i + 1) =~= regs@.take(i as int).push(reg));
        i = i + 1;
        assert(fds@ =~= poll_fds_spec(wake_reader, regs@.take(i as int)));
    }
    assert(regs@.take(i as int) =~= regs@);
    fds
}

/// The state a selector shares among its clones: the registered sources, a
/// wake-up that no selection has reported yet, and the two ends of the pipe
/// that interrupts a blocked `poll(2)`.
pub struct SelectorState {
    registrations: Vec<Registration>,
    pending_wake: Option<Token>,
    wake_reader: i32,
    wake_writer: i32,
}

impl SelectorState {
    /// The registrations, in the order their poll entries take.
    pub closed spec fn regs(&self) -> Seq<Registration> {
        self.registrations@
    }

    /// The token of the wake-up that no selection has reported yet.
    pub closed spec fn pending(&self) -> Option<Token> {
        self.pending_wake
    }

    /// The read end and the write end of the wake pipe.
    pub closed spec fn pipe(&self) -> (i32, i32) {
        (self.wake_reader, self.wake_writer)
    }

    /// No descriptor is registered twice.
    pub open spec fn wf(&self) -> bool {
        fds_unique(self.regs())
    }

    /// The two states hold the same registrations, pending wake-up and pipe.
    pub open spec fn same_state(self, other: SelectorState) -> bool {
        &&& self.regs() == other.regs()
        &&& self.pending() == other.pending()
        &&& self.pipe() == other.pipe()
    }

    /// The registrations as a map from descriptor to token and interest.
    pub open spec fn reg_map(&self) -> Map<i32, (Token, Interest)> {
        registration_map(self.regs())
    }

    /// A selector with no registrations and no pending wake-up, over the
    /// wake pipe with ends `wake_reader` and `wake_writer`.
    pub fn new(wake_reader: i32, wake_writer: i32) -> (r: SelectorState)
        ensures
            r.wf(),
            r.regs() == Seq::<Registration>::empty(),
            r.pending() == None::<Token>,
            r.pipe() == (wake_reader, wake_writer),
    {
        SelectorState {
            registrations: Vec::new(),
            pending_wake: None,
            wake_reader,
            wake_writer,
        }
    }

    /// The read end of the wake pipe.
    pub fn wake_reader(&self) -> (r: i32)
        ensures
            r == self.pipe().0,
    {
        self.wake_reader
    }

    /// The write end of the wake pipe.
    pub fn wake_writer(&self) -> (r: i32)
        ensures
            r == self.pipe().1,
    {
        self.wake_writer
    }

    /// The position of the registration for `fd`, if there is one.
    fn find(&self, fd: i32) -> (r: Option<usize>)
        requires
            self.wf(),
        ensures
            r matches Some(i) ==> i < self.regs().len() && self.regs()[i as int].fd == fd
                && fd_position(self.regs(), fd) == i,
            r is None ==> !has_fd(self.regs(), fd),
    {
        let mut i: usize = 0;
        while i < self.registrations.len()
            invariant
                i <= self.registrations@.len(),
                fds_unique(self.registrations@),
                forall|j: int| 0 <= j < i ==> (#[trigger] self.registrations@[j]).fd != fd,
            decreases self.registrations@.len() - i,
        {
            if self.registrations[i].fd == fd {
                proof {
                    lemma_fd_position(self.registrations@, i as int);
                }
                return Some(i);
            }
            i = i + 1;
        }
        None
    }

    /// Registers `fd` for `interests`, its events to carry `token`; refused
    /// when `fd` is registered already.
    pub fn register(&mut self, fd: i32, token: Token, interests: Interest) -> (r: Result<
        (),
        SysError,
    >)
        requires
            old(self).wf(),
        ensures
            final(self).wf(),
            final(self).pending() == old(self).pending(),
            final(self).pipe() == old(self).pipe(),
            has_fd(old(self).regs(), fd) ==> r == Err::<(), SysError>(SysError::AlreadyExists)
                && final(self).regs() == old(self).regs(),
            !has_fd(old(self).regs(), fd) ==> r == Ok::<(), SysError>(()) && final(self).regs()
                == old(self).regs().push((Registration { fd, token, interests })),
            final(self).reg_map() == if has_fd(old(self).regs(), fd) {
                old(self).reg_map()
            } else {
                old(self).reg_map().insert(fd, (token, interests))
            },
    {
        match self.find(fd) {
            Some(_) => Err(SysError::AlreadyExists),
            None => {
                let reg = Registration { fd, token, interests };
                proof {
                    lemma_map_push(self.registrations@, reg);
                }
                self.registrations.push(reg);
                Ok(())
            },
        }
    }

    /// Changes the token and the interest of the registration for `fd`;
    /// refused when `fd` is not registered.
    pub fn reregister(&mut self, fd: i32, token: Token, interests: Interest) -> (r: Result<
        (),
        SysError,
    >)
        requires
            old(self).wf(),
        ensures
            final(self).wf(),
            final(self).pending() == old(self).pending(),
            final(self).pipe() == old(self).pipe(),
            !has_fd(old(self).regs(), fd) ==> r == Err::<(), SysError>(SysError::NotFound)
                && final(self).regs() == old(self).regs(),
            has_fd(old(self).regs(), fd) ==> r == Ok::<(), SysError>(()) && final(self).regs()
                == old(self).regs().update(
                fd_position(old(self).regs(), fd),
                (Registration { fd, token, interests }),
            ),
            final(self).reg_map() == if has_fd(old(self).regs(), fd) {
                old(self).reg_map().insert(fd, (token, interests))
            } else {
                old(self).reg_map()
            },
    {
        match self.find(fd) {
            Some(i) => {
                let reg = Registration { fd, token, interests };
                proof {
                    lemma_map_update(self.registrations@, i as int, reg);
                }
                self.registrations.set(i, reg);
                Ok(())
            },
            None => Err(SysError::NotFound),
        }
    }

    /// Removes the registration for `fd`, moving the last registration into
    /// its place; refused when `fd` is not registered.
    pub fn deregister(&mut self, fd: i32) -> (r: Result<(), SysError>)
        requires
            old(self).wf(),
        ensures
            final(self).wf(),
            final(self).pending() == old(self).pending(),
            final(self).pipe() == old(self).pipe(),
            !has_fd(old(self).regs(), fd) ==> r == Err::<(), SysError>(SysError::NotFound)
                && final(self).regs() == old(self).regs(),
            has_fd(old(self).regs(), fd) ==> r == Ok::<(), SysError>(()) && final(self).regs()
                == old(self).regs().update(
                fd_position(old(self).regs(), fd),
                old(self).regs().last(),
            ).drop_last(),
            final(self).reg_map() == old(self).reg_map().remove(fd),
    {
        match self.find(fd) {
            Some(i) => {
                proof {
                    lemma_map_swap_remove(self.registrations@, i as int);
                }
                self.registrations.swap_remove(i);
                Ok(())
            },
            None => {
                assert(old(self).reg_map() =~= old(self).reg_map().remove(fd));
                Err(SysError::NotFound)
            },
        }
    }

    /// Records a wake-up for `token`, replacing any pending one; the result
    /// says whether a byte must be written to the wake pipe, which is so only
    /// when no wake-up was pending before.
    pub fn wake(&mut self, token: Token) -> (needs_write: bool)
        ensures
            needs_write == (old(self).pending() is None),
            final(self).pending() == Some(token),
            final(self).regs() == old(self).regs(),
            final(self).pipe() == old(self).pipe(),
            final(self).wf() == old(self).wf(),
    {
        let needs_write = self.pending_wake.is_none();
        self.pending_wake = Some(token);
        needs_write
    }

    /// What a selection hands to `poll(2)`: a copy of the registrations, the
    /// poll entries for them, and the timeout in milliseconds, which is zero
    /// while a wake-up is pending.
    pub fn prepare_poll(&self, timeout: Option<(u64, u32)>) -> (r: (
        Vec<Registration>,
        Vec<PollFd>,
        i32,
    ))
        requires
            timeout matches Some((_, nanos)) ==> nanos < NANOS_PER_SEC,
        ensures
            r.0@ == self.regs(),
            r.1@ == poll_fds_spec(self.pipe().0, self.regs()),
            r.2 == poll_timeout_ms_spec(
                if self.pending() is Some {
                    Some((0u64, 0u32))
                } else {
                    timeout
                },
            ),
    {
        let snapshot = self.registrations.clone();
        assert(snapshot@ =~= self.registrations@);
        let fds = poll_fds_for(self.wake_reader, &snapshot);
        let effective = if self.pending_wake.is_some() {
            Some((0u64, 0u32))
        } else {
            timeout
        };
        (snapshot, fds, poll_timeout_ms(effective))
    }

    /// Ends a selection: takes the pending wake-up and reports it together
    /// with the registrations `polled` came back ready for.
    pub fn finish_select(&mut self, regs: &Vec<Registration>, polled: &Vec<PollFd>) -> (r: Vec<
        Event,
    >)
        requires
            polled.len() >= 1,
        ensures
            r@ == select_events(old(self).pending(), regs@, polled@),
            final(self).pending() == None::<Token>,
            final(self).regs() == old(self).regs(),
            final(self).pipe() == old(self).pipe(),
            final(self).wf() == old(self).wf(),
    {
        let wake = self.pending_wake.take();
        collect_events(wake, regs, polled)
    }
}

/// Registering a new descriptor and then deregistering it leaves the
/// registration map as it was.
pub proof fn law_register_then_deregister(
    regs: Seq<Registration>,
    fd: i32,
    token: Token,
    interests: Interest,
)
    requires
        fds_unique(regs),
        !has_fd(regs, fd),
    ensures
        registration_map(regs).insert(fd, (token, interests)).remove(fd) == registration_map(regs),
{
    let m = registration_map(regs);
    assert(!m.dom().contains(fd));
    assert(m.insert(fd, (token, interests)).remove(fd) =~= m);
}

/// A pending wake-up is reported first, as a readable event for its token,
/// ahead of exactly the events a selection without it reports.
pub proof fn law_wake_reported_first(token: Token, regs: Seq<Registration>, polled: Seq<PollFd>)
    ensures
        select_events(Some(token), regs, polled) == seq![Event { token, events: POLLIN }]
            + select_events(None, regs, polled),
{
    assert(select_events(None, regs, polled) =~= ready_events(
        regs,
        polled,
        polled_count(regs, polled),
    ));
}

/// Every event a selection reports for a registration names a registration
/// that was polled, carries its token, and carries the nonzero bits its poll
/// entry came back with; the events keep the order of the registrations.
pub proof fn law_ready_events_sound(regs: Seq<Registration>, polled: Seq<PollFd>, n: nat)
    requires
        n <= regs.len(),
        n + 1 <= polled.len(),
    ensures
        ready_events(regs, polled, n).len() <= n,
        forall|k: int|
            #![trigger ready_events(regs, polled, n)[k]]
            0 <= k < ready_events(regs, polled, n).len() ==> exists|i: int|
                0 <= i < n && polled[i + 1].revents != 0 && #[trigger] ready_events(
                    regs,
                    polled,
                    n,
                )[k] == (Event { token: regs[i].token, events: polled[i + 1].revents }),
    decreases n,
{
    if n > 0 {
        law_ready_events_sound(regs, polled, (n - 1) as nat);
        let prev = ready_events(regs, polled, (n - 1) as nat);
        let cur = ready_events(regs, polled, n);
        assert forall|k: int|
            #![trigger ready_events(regs, polled, n)[k]]
            0 <= k < cur.len() implies exists|i: int|
            0 <= i < n && polled[i + 1].revents != 0 && #[trigger] cur[k] == (Event {
                token: regs[i].token,
                events: polled[i + 1].revents,
            }) by {
            if k < prev.len() {
                assert(cur[k] == prev[k]);
                let i = choose|i: int|
                    0 <= i < n - 1 && polled[i + 1].revents != 0 && #[trigger] prev[k] == (Event {
                        token: regs[i].token,
                        events: polled[i + 1].revents,
                    });
                assert(0 <= i < n);
            } else {
                let i = n - 1;
                assert(cur[k] == (Event { token: regs[i].token, events: polled[i + 1].revents }));
            }
        }
    }
}

/// The registration whose event stands at place `k` among the events of the
/// first `n` registrations: the last ready one among them if `k` is the last
/// place, and otherwise the one it is among the first `n - 1`.
pub open spec fn ready_source(polled: Seq<PollFd>, n: nat, k: int) -> int
    decreases n,
{
    if n == 0 {
        0
    } else if k < ready_count(polled, (n - 1) as nat) {
        ready_source(polled, (n - 1) as nat, k)
    } else {
        n - 1
    }
}

/// How many of the first `n` registration entries of `polled` (the entries
/// after the wake entry) came back with some bit set.
pub open spec fn ready_count(polled: Seq<PollFd>, n: nat) -> nat
    decreases n,
{
    if n == 0 {
        0
    } else {
        ready_count(polled, (n - 1) as nat) + if polled[n as int].revents != 0 {
            1nat
        } else {
            0nat
        }
    }
}

/// The events of the first `n` registrations number exactly the poll entries
/// among them that came back with some bit set.
pub proof fn law_ready_events_complete(regs: Seq<Registration>, polled: Seq<PollFd>, n: nat)
    ensures
        ready_events(regs, polled, n).len() == ready_count(polled, n),
    decreases n,
{
    if n > 0 {
        law_ready_events_complete(regs, polled, (n - 1) as nat);
    }
}

/// A source registered with some interest asks `poll(2)` for exactly the
/// bits that make the reported event readable, writable or priority as that
/// interest says.
pub proof fn law_interest_readiness(bits: u8)
    ensures
        flag_set(interest_poll_bits(bits), POLLIN) == (bits & READABLE_BIT != 0),
        flag_set(interest_poll_bits(bits), POLLOUT) == (bits & WRITABLE_BIT != 0),
        flag_set(interest_poll_bits(bits), POLLPRI) == (bits & PRIORITY_BIT != 0),
{
    assert(flag_set(interest_poll_bits(bits), POLLIN) == (bits & READABLE_BIT != 0))
        by (bit_vector);
    assert(flag_set(interest_poll_bits(bits), POLLOUT) == (bits & WRITABLE_BIT != 0))
        by (bit_vector);
    assert(flag_set(interest_poll_bits(bits), POLLPRI) == (bits & PRIORITY_BIT != 0))
        by (bit_vector);
}

/// A wake-up is reported at most once: once a selection has taken it (its
/// state `taken` is left with nothing pending) and no wake-up comes after
/// (`later` holds the same pending wake-up), a later selection reports only
/// registrations whose poll entries came back with some bit set.
pub proof fn law_wake_reported_at_most_once(
    taken: SelectorState,
    later: SelectorState,
    regs: Seq<Registration>,
    polled: Seq<PollFd>,
)
    requires
        taken.pending() == None::<Token>,
        later.pending() == taken.pending(),
        polled.len() >= 1,
    ensures
        select_events(later.pending(), regs, polled) == ready_events(
            regs,
            polled,
            polled_count(regs, polled),
        ),
        forall|k: int|
            0 <= k < select_events(later.pending(), regs, polled).len() ==> exists|i: int|
                0 <= i < polled_count(regs, polled) && polled[i + 1].revents != 0
                    && #[trigger] select_events(later.pending(), regs, polled)[k] == (Event {
                    token: regs[i].token,
                    events: polled[i + 1].revents,
                }),
{
    let n = polled_count(regs, polled);
    assert(select_events(later.pending(), regs, polled) =~= ready_events(regs, polled, n));
    law_ready_events_sound(regs, polled, n);
}

/// Of two wake-ups with no selection between them the later one wins: with
/// the later token `second` pending, the selection does not wait (its
/// timeout is zero whatever was asked), reports one readable event for
/// `second` first, and after it only ready registrations.
pub proof fn law_latest_wake_wins(
    first: Token,
    second: Token,
    woken: SelectorState,
    timeout: Option<(u64, u32)>,
    regs: Seq<Registration>,
    polled: Seq<PollFd>,
)
    requires
        woken.pending() == Some(second),
        polled.len() >= 1,
    ensures
        poll_timeout_ms_spec(
            if woken.pending() is Some {
                Some((0u64, 0u32))
            } else {
                timeout
            },
        ) == 0,
        select_events(woken.pending(), regs, polled) == seq![Event { token: second, events: POLLIN }]
            + ready_events(regs, polled, polled_count(regs, polled)),
        select_events(woken.pending(), regs, polled)[0] == (Event { token: second, events: POLLIN }),
        forall|k: int|
            1 <= k < select_events(woken.pending(), regs, polled).len() ==> exists|i: int|
                0 <= i < polled_count(regs, polled) && polled[i + 1].revents != 0
                    && #[trigger] select_events(woken.pending(), regs, polled)[k] == (Event {
                    token: regs[i].token,
                    events: polled[i + 1].revents,
                }),
{
    let n = polled_count(regs, polled);
    let ev = select_events(woken.pending(), regs, polled);
    let ready = ready_events(regs, polled, n);
    assert(ev =~= seq![Event { token: second, events: POLLIN }] + ready);
    law_ready_events_sound(regs, polled, n);
    assert forall|k: int| 1 <= k < ev.len() implies exists|i: int|
        0 <= i < n && polled[i + 1].revents != 0 && #[trigger] ev[k] == (Event {
            token: regs[i].token,
            events: polled[i + 1].revents,
        }) by {
        assert(ev[k] == ready[k - 1]);
    }
}

/// The poll entries of a selection: the wake pipe's read end first, asking
/// for input only; then, for each registration in order, an entry for its
/// descriptor that asks for input exactly when its interest is readable, for
/// output exactly when writable, for urgent data exactly when priority, and
/// for nothing else; no entry starts with bits already returned.
pub proof fn law_poll_fds_ask_for_interests(wake_reader: i32, regs: Seq<Registration>)
    ensures
        poll_fds_spec(wake_reader, regs).len() == regs.len() + 1,
        poll_fds_spec(wake_reader, regs)[0] == (PollFd { fd: wake_reader, events: POLLIN, revents: 0 }),
        forall|i: int|
            0 <= i < regs.len() ==> {
                let e = #[trigger] poll_fds_spec(wake_reader, regs)[i + 1];
                let bits = regs[i].interests@;
                &&& e.fd == regs[i].fd
                &&& e.revents == 0
                &&& flag_set(e.events, POLLIN) == (bits & READABLE_BIT != 0)
                &&& flag_set(e.events, POLLOUT) == (bits & WRITABLE_BIT != 0)
                &&& flag_set(e.events, POLLPRI) == (bits & PRIORITY_BIT != 0)
                &&& e.events & !(POLLIN | POLLOUT | POLLPRI) == 0
            },
{
    let fds = poll_fds_spec(wake_reader, regs);
    assert forall|i: int| 0 <= i < regs.len() implies {
        let e = #[trigger] fds[i + 1];
        let bits = regs[i].interests@;
        &&& e.fd == regs[i].fd
        &&& e.revents == 0
        &&& flag_set(e.events, POLLIN) == (bits & READABLE_BIT != 0)
        &&& flag_set(e.events, POLLOUT) == (bits & WRITABLE_BIT != 0)
        &&& flag_set(e.events, POLLPRI) == (bits & PRIORITY_BIT != 0)
        &&& e.events & !(POLLIN | POLLOUT | POLLPRI) == 0
    } by {
        let bits = regs[i].interests@;
        law_interest_readiness(bits);
        assert(interest_poll_bits(bits) & !(POLLIN | POLLOUT | POLLPRI) == 0) by (bit_vector);
    }
}

/// Where each ready registration's event stands among the first `n`: after
/// the events of the ready registrations before it, one for each.
proof fn lemma_ready_events_positions(regs: Seq<Registration>, polled: Seq<PollFd>, n: nat)
    requires
        n <= regs.len(),
        n + 1 <= polled.len(),
    ensures
        ready_events(regs, polled, n).len() == ready_count(polled, n),
        forall|i: int|
            0 <= i < n && polled[i + 1].revents != 0 ==> ready_count(polled, i as nat)
                < ready_events(regs, polled, n).len() && ready_events(regs, polled, n)[#[trigger] ready_count(
                polled,
                i as nat,
            ) as int] == (Event { token: regs[i].token, events: polled[i + 1].revents }),
        forall|k: int|
            0 <= k < ready_events(regs, polled, n).len() ==> #[trigger] ready_source(
                polled,
                n,
                k,
            ) < n && polled[ready_source(polled, n, k) + 1].revents != 0 && k == ready_count(
                polled,
                ready_source(polled, n, k) as nat,
            ) && ready_events(regs, polled, n)[k] == (Event {
                token: regs[ready_source(polled, n, k)].token,
                events: polled[ready_source(polled, n, k) + 1].revents,
            }) && 0 <= ready_source(polled, n, k),
    decreases n,
{
    law_ready_events_complete(regs, polled, n);
    if n > 0 {
        let m = (n - 1) as nat;
        lemma_ready_events_positions(regs, polled, m);
        law_ready_events_complete(regs, polled, m);
        assert forall|i: int| 0 <= i < n && polled[i + 1].revents != 0 implies ready_count(
            polled,
            i as nat,
        ) < ready_events(regs, polled, n).len() && ready_events(regs, polled, n)[#[trigger] ready_count(
            polled,
            i as nat,
        ) as int] == (Event { token: regs[i].token, events: polled[i + 1].revents }) by {
            if i < m {
                assert(ready_events(regs, polled, n)[ready_count(polled, i as nat) as int]
                    == ready_events(regs, polled, m)[ready_count(polled, i as nat) as int]);
            }
        }
        assert forall|k: int| 0 <= k < ready_events(regs, polled, n).len() implies #[trigger] ready_source(
            polled,
            n,
            k,
        ) < n && polled[ready_source(polled, n, k) + 1].revents != 0 && k == ready_count(
            polled,
            ready_source(polled, n, k) as nat,
        ) && ready_events(regs, polled, n)[k] == (Event {
            token: regs[ready_source(polled, n, k)].token,
            events: polled[ready_source(polled, n, k) + 1].revents,
        }) && 0 <= ready_source(polled, n, k) by {
            if k < ready_events(regs, polled, m).len() {
                assert(ready_source(polled, m, k) == ready_source(polled, n, k));
                assert(ready_events(regs, polled, n)[k] == ready_events(regs, polled, m)[k]);
            }
        }
    } else {
        assert(ready_events(regs, polled, n) =~= Seq::<Event>::empty());
    }
}

/// The registration that the event at place `k` of a selection's events
/// stands for (`k` at or after the wake-up's place).
pub open spec fn event_source(
    wake: Option<Token>,
    regs: Seq<Registration>,
    polled: Seq<PollFd>,
    k: int,
) -> int {
    ready_source(polled, polled_count(regs, polled), k - wake_offset(wake))
}

/// The number of events a selection reports ahead of the registrations':
/// one for a pending wake-up.
pub open spec fn wake_offset(wake: Option<Token>) -> int {
    if wake is Some {
        1
    } else {
        0
    }
}

/// What one round of selection reports, in terms of its inputs alone: the
/// pending wake-up, if any, first, as a readable event for its token; then,
/// for every registration that has a poll entry (registration `i` has entry
/// `i + 1`) whose bits came back nonzero, exactly one event, carrying that
/// registration's token and those bits, placed after the events of the
/// ready registrations before it; and nothing else.
pub proof fn law_select_events_exact(
    wake: Option<Token>,
    regs: Seq<Registration>,
    polled: Seq<PollFd>,
)
    requires
        polled.len() >= 1,
    ensures
        wake matches Some(t) ==> select_events(wake, regs, polled).len() >= 1 && select_events(
            wake,
            regs,
            polled,
        )[0] == (Event { token: t, events: POLLIN }),
        forall|i: int|
            0 <= i < regs.len() && i + 1 < polled.len() && polled[i + 1].revents != 0
                ==> wake_offset(wake) + ready_count(polled, i as nat) < select_events(
                wake,
                regs,
                polled,
            ).len() && select_events(wake, regs, polled)[wake_offset(wake)
                + #[trigger] ready_count(polled, i as nat)] == (Event {
                token: regs[i].token,
                events: polled[i + 1].revents,
            }),
        forall|k: int|
            wake_offset(wake) <= k < select_events(wake, regs, polled).len() ==> {
                let i = #[trigger] event_source(wake, regs, polled, k);
                &&& 0 <= i < regs.len()
                &&& i + 1 < polled.len()
                &&& polled[i + 1].revents != 0
                &&& k == wake_offset(wake) + ready_count(polled, i as nat)
                &&& select_events(wake, regs, polled)[k] == (Event {
                    token: regs[i].token,
                    events: polled[i + 1].revents,
                })
            },
{
    let n = polled_count(regs, polled);
    let head: Seq<Event> = match wake {
        Some(t) => seq![Event { token: t, events: POLLIN }],
        None => seq![],
    };
    assert(select_events(wake, regs, polled) == head + ready_events(regs, polled, n));
    assert(head.len() == wake_offset(wake));
    if let Some(t) = wake {
        assert(select_events(wake, regs, polled)[0] == head[0]);
    }
    lemma_ready_events_positions(regs, polled, n);
    assert forall|i: int|
        0 <= i < regs.len() && i + 1 < polled.len() && polled[i + 1].revents != 0 implies wake_offset(
        wake,
    ) + ready_count(polled, i as nat) < select_events(wake, regs, polled).len() && select_events(
        wake,
        regs,
        polled,
    )[wake_offset(wake) + #[trigger] ready_count(polled, i as nat)] == (Event {
        token: regs[i].token,
        events: polled[i + 1].revents,
    }) by {
        assert(i < n);
        assert(select_events(wake, regs, polled)[wake_offset(wake) + ready_count(polled, i as nat)]
            == ready_events(regs, polled, n)[ready_count(polled, i as nat) as int]);
    }
    assert forall|k: int|
        wake_offset(wake) <= k < select_events(wake, regs, polled).len() implies {
            let i = #[trigger] event_source(wake, regs, polled, k);
            &&& 0 <= i < regs.len()
            &&& i + 1 < polled.len()
            &&& polled[i + 1].revents != 0
            &&& k == wake_offset(wake) + ready_count(polled, i as nat)
            &&& select_events(wake, regs, polled)[k] == (Event {
                token: regs[i].token,
                events: polled[i + 1].revents,
            })
        } by {
        let j = k - wake_offset(wake);
        assert(select_events(wake, regs, polled)[k] == ready_events(regs, polled, n)[j]);
    }
}

} // verus!
