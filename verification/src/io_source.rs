use vstd::prelude::*;

use crate::abi::SysError;
use crate::selector::{fd_position, has_fd, Registration, SelectorState};
use crate::token::{Interest, Token};

verus! {

/// The registration state of one event source: the descriptor it registered
/// with a selector, if it did.
pub struct IoSourceState {
    registered: Option<i32>,
}

impl IoSourceState {
    /// The descriptor the source registered, if it did.
    pub closed spec fn source_fd(&self) -> Option<i32> {
        self.registered
    }

    /// A source that is registered nowhere.
    pub fn new() -> (r: IoSourceState)
        ensures
            r.source_fd() == None::<i32>,
    {
        IoSourceState { registered: None }
    }

    /// Registers the source, with descriptor `fd`, in `selector`; refused when
    /// the source is registered already, and otherwise as the selector
    /// answers.
    pub fn register(
        &mut self,
        selector: &mut SelectorState,
        token: Token,
        interests: Interest,
        fd: i32,
    ) -> (r: Result<(), SysError>)
        requires
            old(selector).wf(),
        ensures
            final(selector).wf(),
            old(self).source_fd() is Some ==> r == Err::<(), SysError>(SysError::AlreadyExists)
                && *final(self) == *old(self) && final(selector).same_state(*old(selector)),
            old(self).source_fd() is None && has_fd(old(selector).regs(), fd) ==> r == Err::<
                (),
                SysError,
            >(SysError::AlreadyExists) && final(self).source_fd() == None::<i32> && final(selector).same_state(*old(selector)),
            old(self).source_fd() is None && !has_fd(old(selector).regs(), fd) ==> r == Ok::<
                (),
                SysError,
            >(()) && final(self).source_fd() == Some(fd) && final(selector).regs() == old(selector).regs().push((Registration { fd, token, interests })) && final(selector).pending()
                == old(selector).pending() && final(selector).pipe() == old(selector).pipe(),
    {
        if self.registered.is_some() {
            return Err(SysError::AlreadyExists);
        }
        let r = selector.register(fd, token, interests);
        if r.is_ok() {
            self.registered = Some(fd);
        }
        r
    }

    /// Changes the token and the interest of `fd` in `selector`.
    pub fn reregister(
        &mut self,
        selector: &mut SelectorState,
        token: Token,
        interests: Interest,
        fd: i32,
    ) -> (r: Result<(), SysError>)
        requires
            old(selector).wf(),
        ensures
            final(selector).wf(),
            *final(self) == *old(self),
            final(selector).pending() == old(selector).pending(),
            final(selector).pipe() == old(selector).pipe(),
            !has_fd(old(selector).regs(), fd) ==> r == Err::<(), SysError>(SysError::NotFound)
                && final(selector).regs() == old(selector).regs(),
            has_fd(old(selector).regs(), fd) ==> r == Ok::<(), SysError>(()) && final(selector).regs() == old(selector).regs().update(
                fd_position(old(selector).regs(), fd),
                (Registration { fd, token, interests }),
            ),
    {
        selector.reregister(fd, token, interests)
    }

    /// Forgets the source's registration and removes `fd` from `selector`.
    pub fn deregister(&mut self, selector: &mut SelectorState, fd: i32) -> (r: Result<
        (),
        SysError,
    >)
        requires
            old(selector).wf(),
        ensures
            final(selector).wf(),
            final(self).source_fd() == None::<i32>,
            final(selector).pending() == old(selector).pending(),
            final(selector).pipe() == old(selector).pipe(),
            final(selector).reg_map() == old(selector).reg_map().remove(fd),
            !has_fd(old(selector).regs(), fd) ==> r == Err::<(), SysError>(SysError::NotFound)
                && final(selector).regs() == old(selector).regs(),
            has_fd(old(selector).regs(), fd) ==> r == Ok::<(), SysError>(()) && final(selector).regs() == old(selector).regs().update(
                fd_position(old(selector).regs(), fd),
                old(selector).regs().last(),
            ).drop_last(),
    {
        self.registered = None;
        selector.deregister(fd)
    }

    /// What dropping a source does: a source still registered removes its
    /// descriptor from `selector`, whatever the selector answers.
    pub fn release(&mut self, selector: &mut SelectorState)
        requires
            old(selector).wf(),
        ensures
            final(selector).wf(),
            final(self).source_fd() == None::<i32>,
            final(selector).pending() == old(selector).pending(),
            final(selector).pipe() == old(selector).pipe(),
            old(self).source_fd() is None ==> final(selector).regs() == old(selector).regs(),
            old(self).source_fd() matches Some(fd) ==> final(selector).reg_map() == old(selector).reg_map().remove(fd),
            old(self).source_fd() matches Some(fd) ==> if has_fd(old(selector).regs(), fd) {
                final(selector).regs() == old(selector).regs().update(
                    fd_position(old(selector).regs(), fd),
                    old(selector).regs().last(),
                ).drop_last()
            } else {
                final(selector).regs() == old(selector).regs()
            },
    {
        if let Some(fd) = self.registered {
            let _ = selector.deregister(fd);
        }
        self.registered = None;
    }
}

} // verus!
