//! The bookkeeping of the multiplexing echo servers: which client connections they watch,
//! whether a new connection is admitted, which connection a read result closes, and how
//! many ready descriptors of the current round are still unhandled.
use vstd::prelude::*;

verus! {

/// Reads `nix::sys::select::FD_SETSIZE` (that is, `libc::FD_SETSIZE`): how many descriptors
/// a select set can hold. It depends on the target (1024 on Linux and the BSDs, 256 or 64
/// on some others); the contract claims only that it is positive.
#[verifier::external_body]
fn fd_setsize() -> (r: usize)
    ensures
        r > 0,
{
    nix::sys::select::FD_SETSIZE
}

/// How many connections the select-driven server can hold: the size of a select set.
pub fn select_capacity() -> (r: usize)
    ensures
        r > 0,
{
    fd_setsize()
}

/// The listening socket and the client connections that a multiplexing server watches,
/// with the number of ready descriptors of the current round not yet handled.
pub struct ClientTable {
    listener: i32,
    clients: Vec<i32>,
    pending: i32,
}

/// Whether a new connection is kept.
#[derive(PartialEq, Eq, Structural, Clone, Copy, Debug)]
pub enum Admission {
    /// Kept and watched from now on.
    Admitted,
    /// The table is full: the server reports too many clients and exits.
    TooMany,
}

/// What a read from a client connection gave the select-driven server.
#[derive(PartialEq, Eq, Structural, Clone, Copy, Debug)]
pub enum SelectRead {
    /// End of stream: the client closed its side.
    Closed,
    /// A line was read.
    Line,
    /// The read failed.
    Failed,
}

/// What a read from a client connection gave the poll-driven server.
#[derive(PartialEq, Eq, Structural, Clone, Copy, Debug)]
pub enum PollRead {
    /// End of stream: the client closed its side.
    Closed,
    /// A line was read.
    Line,
    /// The read failed because the peer reset the connection.
    Reset,
    /// The read failed for another reason.
    Failed,
}

/// What the server does with a client connection after reading from it.
#[derive(PartialEq, Eq, Structural, Clone, Copy, Debug)]
pub enum ClientAction {
    /// Write the line back to the client.
    Echo,
    /// Forget the connection and close it.
    Drop,
    /// Report the failed read and keep the connection.
    Report,
}

/// The outcome of handling one ready descriptor.
pub struct Handled {
    pub action: ClientAction,
    /// Whether ready descriptors remain in this round, so that the scan of the clients goes
    /// on.
    pub more_ready: bool,
}

impl ClientTable {
    /// The listening socket.
    pub closed spec fn spec_listener(&self) -> i32 {
        self.listener
    }

    /// The client connections, in the order the server scans them.
    pub closed spec fn spec_clients(&self) -> Seq<i32> {
        self.clients@
    }

    /// The ready descriptors of the current round not yet handled.
    pub closed spec fn spec_pending(&self) -> int {
        self.pending as int
    }

    /// No connection is listed twice, and none is the listening socket. The kernel never
    /// hands out a descriptor that is still open, so a server that adds what `accept`
    /// returns keeps this.
    pub open spec fn wf(&self) -> bool {
        &&& forall|i: int, j: int|
            0 <= i < j < self.spec_clients().len() ==> self.spec_clients()[i]
                != self.spec_clients()[j]
        &&& !self.spec_clients().contains(self.spec_listener())
    }

    /// The descriptors the server waits on: the listening socket and every client.
    pub open spec fn watched_set(&self) -> Set<i32> {
        self.spec_clients().to_set().insert(self.spec_listener())
    }

    /// A table that watches only the listening socket.
    pub fn new(listener: i32) -> (t: ClientTable)
        ensures
            t.wf(),
            t.spec_listener() == listener,
            t.spec_clients() == Seq::<i32>::empty(),
            t.spec_pending() == 0,
    {
        ClientTable { listener, clients: Vec::new(), pending: 0 }
    }

    /// The listening socket.
    pub fn listener(&self) -> (r: i32)
        ensures
            r == self.spec_listener(),
    {
        self.listener
    }

    /// The ready descriptors of the current round not yet handled.
    pub fn pending(&self) -> (r: i32)
        ensures
            r == self.spec_pending(),
    {
        self.pending
    }

    /// How many client connections are watched.
    pub fn client_count(&self) -> (r: usize)
        ensures
            r == self.spec_clients().len(),
    {
        self.clients.len()
    }

    /// The client connection at position `index`, if there is one.
    pub fn client(&self, index: usize) -> (r: Option<i32>)
        ensures
            index < self.spec_clients().len() ==> r == Some(self.spec_clients()[index as int]),
            index >= self.spec_clients().len() ==> r is None,
    {
        if index < self.clients.len() {
            Some(self.clients[index])
        } else {
            None
        }
    }

    /// Whether `fd` is the listening socket or a watched client.
    pub fn is_watched(&self, fd: i32) -> (r: bool)
        ensures
            r == self.watched_set().contains(fd),
    {
        if fd == self.listener {
            return true;
        }
        let mut i: usize = 0;
        while i < self.clients.len()
            invariant
                0 <= i <= self.clients@.len(),
                fd != self.listener,
                forall|j: int| 0 <= j < i ==> self.clients@[j] != fd,
            decreases self.clients@.len() - i,
        {
            if self.clients[i] == fd {
                assert(self.spec_clients().to_set().contains(fd)) by {
                    assert(self.spec_clients()[i as int] == fd);
                }
                return true;
            }
            i = i + 1;
        }
        assert(!self.spec_clients().contains(fd));
        false
    }

    /// The descriptors to wait on, listening socket first, then the clients in scan order.
    pub fn watched(&self) -> (r: Vec<i32>)
        ensures
            r@ == seq![self.spec_listener()] + self.spec_clients(),
    {
        let mut r: Vec<i32> = Vec::new();
        r.push(self.listener);
        let mut i: usize = 0;
        while i < self.clients.len()
            invariant
                0 <= i <= self.clients@.len(),
                r@ =~= seq![self.listener] + self.clients@.take(i as int),
            decreases self.clients@.len() - i,
        {
            r.push(self.clients[i]);
            i = i + 1;
        }
        assert(self.clients@.take(self.clients@.len() as int) =~= self.clients@);
        r
    }

    /// Starts a round in which the wait reported `nready` ready descriptors.
    pub fn begin_round(&mut self, nready: i32)
        ensures
            final(self).spec_listener() == old(self).spec_listener(),
            final(self).spec_clients() == old(self).spec_clients(),
            final(self).spec_pending() == nready,
    {
        self.pending = nready;
    }

    /// Counts one ready descriptor as handled and says whether any remain.
    fn spend_ready(&mut self) -> (more: bool)
        requires
            old(self).spec_pending() > i32::MIN,
        ensures
            final(self).spec_listener() == old(self).spec_listener(),
            final(self).spec_clients() == old(self).spec_clients(),
            final(self).spec_pending() == old(self).spec_pending() - 1,
            more == (final(self).spec_pending() > 0),
    {
        self.pending = self.pending - 1;
        self.pending > 0
    }

    /// The select-driven server's admission of a connection that `accept` returned: kept at
    /// the front of the scan order while fewer than `capacity` clients are watched. Once
    /// kept, it counts as one handled ready descriptor; `more_ready` says whether others
    /// remain in this round.
    pub fn admit_first(&mut self, fd: i32, capacity: usize) -> (r: (Admission, bool))
        requires
            old(self).wf(),
            fd != old(self).spec_listener(),
            !old(self).spec_clients().contains(fd),
            old(self).spec_pending() > i32::MIN,
        ensures
            final(self).wf(),
            final(self).spec_listener() == old(self).spec_listener(),
            (r.0 == Admission::Admitted) <==> old(self).spec_clients().len() < capacity,
            old(self).spec_clients().len() <= capacity ==> final(self).spec_clients().len()
                <= capacity,
            r.0 == Admission::Admitted ==> final(self).spec_clients() == seq![fd] + old(self).spec_clients() && final(self).spec_pending() == old(self).spec_pending() - 1 && r.1
                == (final(self).spec_pending() > 0),
            r.0 == Admission::TooMany ==> final(self).spec_clients() == old(self).spec_clients()
                && final(self).spec_pending() == old(self).spec_pending() && !r.1,
    {
        if capacity > self.clients.len() {
            let ghost before = self.clients@;
            self.clients.insert(0, fd);
            assert(self.clients@ =~= seq![fd] + before);
            assert forall|i: int, j: int|
                0 <= i < j < self.clients@.len() implies self.clients@[i] != self.clients@[j] by {
                if i == 0 {
                    assert(self.clients@[j] == before[j - 1]);
                    assert(before.contains(before[j - 1]));
                }
            }
            assert(!self.clients@.contains(self.listener)) by {
                if self.clients@.contains(self.listener) {
                    let k = choose|k: int| 0 <= k < self.clients@.len() && self.clients@[k] == self.listener;
                    assert(k != 0);
                    assert(before[k - 1] == self.listener);
                }
            }
            let more = self.spend_ready();
            (Admission::Admitted, more)
        } else {
            (Admission::TooMany, false)
        }
    }

    /// The poll-driven server's admission of a connection that `accept` returned: kept at
    /// the end of the scan order while its poll list, which holds the listening socket and
    /// every client, is shorter than `open_max`. Once kept, it counts as one handled ready
    /// descriptor; `more_ready` says whether others remain in this round.
    pub fn admit_last(&mut self, fd: i32, open_max: usize) -> (r: (Admission, bool))
        requires
            old(self).wf(),
            fd != old(self).spec_listener(),
            !old(self).spec_clients().contains(fd),
            old(self).spec_pending() > i32::MIN,
        ensures
            final(self).wf(),
            final(self).spec_listener() == old(self).spec_listener(),
            (r.0 == Admission::Admitted) <==> old(self).spec_clients().len() + 1 < open_max,
            old(self).spec_clients().len() + 1 <= open_max ==> final(self).spec_clients().len() + 1
                <= open_max,
            r.0 == Admission::Admitted ==> final(self).spec_clients() == old(self).spec_clients().push(fd) && final(self).spec_pending() == old(self).spec_pending() - 1
                && r.1 == (final(self).spec_pending() > 0),
            r.0 == Admission::TooMany ==> final(self).spec_clients() == old(self).spec_clients()
                && final(self).spec_pending() == old(self).spec_pending() && !r.1,
    {
        if open_max > self.clients.len() && open_max - self.clients.len() > 1 {
            let ghost before = self.clients@;
            self.clients.push(fd);
            assert forall|i: int, j: int|
                0 <= i < j < self.clients@.len() implies self.clients@[i] != self.clients@[j] by {
                if j == before.len() {
                    assert(self.clients@[i] == before[i]);
                    assert(before.contains(before[i]));
                }
            }
            assert(!self.clients@.contains(self.listener)) by {
                if self.clients@.contains(self.listener) {
                    let k = choose|k: int| 0 <= k < self.clients@.len() && self.clients@[k] == self.listener;
                    assert(k != before.len());
                    assert(before[k] == self.listener);
                }
            }
            let more = self.spend_ready();
            (Admission::Admitted, more)
        } else {
            (Admission::TooMany, false)
        }
    }

    /// Forgets the client at position `index`.
    fn drop_client(&mut self, index: usize)
        requires
            old(self).wf(),
            index < old(self).spec_clients().len(),
        ensures
            final(self).wf(),
            final(self).spec_listener() == old(self).spec_listener(),
            final(self).spec_pending() == old(self).spec_pending(),
            final(self).spec_clients() == old(self).spec_clients().remove(index as int),
    {
        let ghost before = self.clients@;
        self.clients.remove(index);
        assert forall|i: int, j: int|
            0 <= i < j < self.clients@.len() implies self.clients@[i] != self.clients@[j] by {
            let bi = if i < index { i } else { i + 1 };
            let bj = if j < index { j } else { j + 1 };
            assert(self.clients@[i] == before[bi]);
            assert(self.clients@[j] == before[bj]);
        }
        assert(!self.clients@.contains(self.listener)) by {
            if self.clients@.contains(self.listener) {
                let k = choose|k: int| 0 <= k < self.clients@.len() && self.clients@[k] == self.listener;
                let bk = if k < index { k } else { k + 1 };
                assert(before[bk] == self.listener);
            }
        }
    }

    /// The select-driven server's handling of a ready client at position `index`: the end of
    /// its stream drops it, a line is echoed, a failed read is reported. The descriptor
    /// counts as handled; `more_ready` says whether others remain in this round.
    pub fn after_select_read(&mut self, index: usize, outcome: SelectRead) -> (r: Handled)
        requires
            old(self).wf(),
            index < old(self).spec_clients().len(),
            old(self).spec_pending() > i32::MIN,
        ensures
            final(self).wf(),
            final(self).spec_listener() == old(self).spec_listener(),
            final(self).spec_pending() == old(self).spec_pending() - 1,
            r.more_ready == (final(self).spec_pending() > 0),
            outcome == SelectRead::Closed ==> r.action == ClientAction::Drop && final(self).spec_clients() == old(self).spec_clients().remove(index as int),
            outcome == SelectRead::Line ==> r.action == ClientAction::Echo && final(self).spec_clients() == old(self).spec_clients(),
            outcome == SelectRead::Failed ==> r.action == ClientAction::Report && final(self).spec_clients() == old(self).spec_clients(),
    {
        let action = match outcome {
            SelectRead::Closed => {
                self.drop_client(index);
                ClientAction::Drop
            },
            SelectRead::Line => ClientAction::Echo,
            SelectRead::Failed => ClientAction::Report,
        };
        let more_ready = self.spend_ready();
        Handled { action, more_ready }
    }

    /// The poll-driven server's handling of a ready client at position `index`: the end of
    /// its stream or a reset connection drops it, a line is echoed, another failed read is
    /// reported. The descriptor counts as handled; `more_ready` says whether others remain
    /// in this round.
    pub fn after_poll_read(&mut self, index: usize, outcome: PollRead) -> (r: Handled)
        requires
            old(self).wf(),
            index < old(self).spec_clients().len(),
            old(self).spec_pending() > i32::MIN,
        ensures
            final(self).wf(),
            final(self).spec_listener() == old(self).spec_listener(),
            final(self).spec_pending() == old(self).spec_pending() - 1,
            r.more_ready == (final(self).spec_pending() > 0),
            (outcome == PollRead::Closed || outcome == PollRead::Reset) ==> r.action
                == ClientAction::Drop && final(self).spec_clients() == old(self).spec_clients().remove(index as int),
            outcome == PollRead::Line ==> r.action == ClientAction::Echo && final(self).spec_clients() == old(self).spec_clients(),
            outcome == PollRead::Failed ==> r.action == ClientAction::Report && final(self).spec_clients() == old(self).spec_clients(),
    {
        let action = match outcome {
            PollRead::Closed | PollRead::Reset => {
                self.drop_client(index);
                ClientAction::Drop
            },
            PollRead::Line => ClientAction::Echo,
            PollRead::Failed => ClientAction::Report,
        };
        let more_ready = self.spend_ready();
        Handled { action, more_ready }
    }
}

/// A dropped connection is no longer waited on, and every other connection still is: the
/// wait set after a drop is the one before it without the dropped descriptor.
pub proof fn law_drop_unwatches(before: ClientTable, after: ClientTable, index: int)
    requires
        before.wf(),
        0 <= index < before.spec_clients().len(),
        after.spec_listener() == before.spec_listener(),
        after.spec_clients() == before.spec_clients().remove(index),
    ensures
        after.watched_set() == before.watched_set().remove(before.spec_clients()[index]),
{
    let c = before.spec_clients();
    let fd = c[index];
    let a = after.spec_clients();
    assert forall|x: i32| after.watched_set().contains(x) == before.watched_set().remove(
        fd,
    ).contains(x) by {
        if a.contains(x) {
            let k = choose|k: int| 0 <= k < a.len() && a[k] == x;
            let bk = if k < index { k } else { k + 1 };
            assert(c[bk] == x);
            assert(bk != index);
            assert(c.contains(x));
        }
        if x != fd && c.contains(x) {
            let k = choose|k: int| 0 <= k < c.len() && c[k] == x;
            assert(k != index);
            let ak = if k < index { k } else { k - 1 };
            assert(a[ak] == x);
            assert(a.contains(x));
        }
        if x == before.spec_listener() {
            assert(x != fd);
        }
    }
    assert(after.watched_set() =~= before.watched_set().remove(fd));
}

} // verus!
