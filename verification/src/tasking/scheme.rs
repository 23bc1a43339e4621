//! Requests to schemes (services) and their replies.
use vstd::prelude::*;
use std::collections::VecDeque;
use crate::tasking::file::{FileHandle, InnerFileHandle};
use crate::tasking::thread::ThreadId;

verus! {

/// Reply data.
/// We only wait at most for one reply. The reply data is very simple, it's just a status + data pair.
/// In the case we have a non-blocking send, we don't have reply data.
#[derive(Debug, Copy, Clone, PartialEq, Eq, Structural)]
pub struct ReplyData {
    pub status: usize,
    pub value: u64,
}

/// Reply data inside the Tcb.
pub struct ReplyDataTcb {
    status: usize,
    value: u64,
}

/// A command sent to a scheme.
pub enum CommandData {
    Open,
}

impl ReplyData {
    /// Creates `ReplyData` from `ReplyDataTcb`.
    pub fn from(reply_data_tcb: &ReplyDataTcb) -> (r: Self)
        ensures
            r.status == reply_data_tcb.spec_status(),
            r.value == reply_data_tcb.spec_value(),
    {
        Self { status: reply_data_tcb.status, value: reply_data_tcb.value }
    }
}

impl ReplyDataTcb {
    /// The stored status.
    pub closed spec fn spec_status(&self) -> usize {
        self.status
    }

    /// The stored value.
    pub closed spec fn spec_value(&self) -> u64 {
        self.value
    }

    /// Creates a new `ReplyDataTcb`: no reply yet (status `usize::MAX`).
    pub fn new() -> (r: Self)
        ensures
            r.spec_status() == usize::MAX,
            r.spec_value() == 0,
    {
        Self { status: usize::MAX, value: 0 }
    }

    /// Stores a new reply.
    pub fn store(&mut self, data: ReplyData)
        ensures
            final(self).spec_status() == data.status,
            final(self).spec_value() == data.value,
    {
        self.value = data.value;
        self.status = data.status;
    }
}

/// A command waiting for a scheme: what is asked, by which thread, and whether that thread
/// waits for the reply.
pub struct Command {
    pub payload: CommandData,
    pub thread: ThreadId,
    pub blocking: bool,
}

/// A scheme: a service that threads send commands to, served in the order they came.
pub struct Scheme {
    /// Command queue.
    command_queue: VecDeque<Command>,
}

impl Scheme {
    /// The commands waiting, oldest first.
    pub closed spec fn spec_queue(&self) -> Seq<Command> {
        self.command_queue@
    }

    /// Creates a new scheme.
    pub fn new() -> (r: Self)
        ensures
            r.spec_queue() == Seq::<Command>::empty(),
    {
        Self { command_queue: VecDeque::new() }
    }

    /// Sends a blocking command from `thread`: it goes at the back of the queue. The thread is
    /// then to block until the reply is in its reply data.
    pub fn send_blocking(&mut self, payload: CommandData, thread: ThreadId)
        ensures
            final(self).spec_queue() == old(self).spec_queue().push(
                (Command { payload, thread, blocking: true }),
            ),
    {
        self.command_queue.push_back(Command { payload, thread, blocking: true });
    }

    /// Opening a file in the scheme: the reply to the open command gives the handle when its
    /// status is 0, and its status as the error otherwise.
    pub fn open(response: ReplyData) -> (r: Result<FileHandle, usize>)
        ensures
            response.status == 0 ==> r == Ok::<FileHandle, usize>(FileHandle::Inner(InnerFileHandle(response.value))),
            response.status != 0 ==> r == Err::<FileHandle, usize>(response.status),
    {
        if response.status == 0 {
            Ok(FileHandle::Inner(InnerFileHandle(response.value)))
        } else {
            Err(response.status)
        }
    }

    /// Takes the oldest command, if any.
    fn command_receive(&mut self) -> (r: Option<Command>)
        ensures
            old(self).spec_queue().len() == 0 ==> r is None && final(self).spec_queue() == old(self).spec_queue(),
            old(self).spec_queue().len() > 0 ==> r == Some(old(self).spec_queue()[0])
                && final(self).spec_queue() == old(self).spec_queue().drop_first(),
    {
        self.command_queue.pop_front()
    }

    /// Serves the oldest command: returns the thread that sent it, which is to be woken up.
    pub fn test(&mut self, data2: i32) -> (r: Option<ThreadId>)
        ensures
            old(self).spec_queue().len() == 0 ==> r is None && final(self).spec_queue() == old(self).spec_queue(),
            old(self).spec_queue().len() > 0 ==> r == Some(old(self).spec_queue()[0].thread)
                && final(self).spec_queue() == old(self).spec_queue().drop_first(),
    {
        match self.command_receive() {
            Some(cmd) => Some(cmd.thread),
            None => None,
        }
    }
}

} // verus!
