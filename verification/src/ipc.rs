//! Local exchange between the launcher and the game: where the game listens,
//! the lines waiting for it, and the lines it polls.
use vstd::prelude::*;

use std::collections::VecDeque;

use crate::net::{localhost, localhost_ip, SockAddr};
use crate::text::owned;

verus! {

/// At most this many lines wait for a game whose address is not known yet.
pub const MAX_PENDING: usize = 256;

/// At most this many lines are handed out by one poll.
pub const POLL_BATCH: usize = 64;

/// The IPC state as its logic reads it.
pub struct IpcState {
    port: u16,
    game_addr: Option<SockAddr>,
    inbox: VecDeque<String>,
    pending: VecDeque<String>,
}

impl IpcState {
    pub closed spec fn port_spec(&self) -> u16 {
        self.port
    }

    pub closed spec fn game_addr_spec(&self) -> Option<SockAddr> {
        self.game_addr
    }

    /// Lines delivered to the game, oldest first, until it polls them.
    pub closed spec fn inbox_spec(&self) -> Seq<String> {
        self.inbox@
    }

    /// Lines kept until the game's address is known, oldest first.
    pub closed spec fn pending_spec(&self) -> Seq<String> {
        self.pending@
    }

    /// No more than `MAX_PENDING` lines wait.
    pub open spec fn wf(&self) -> bool {
        self.pending_spec().len() <= MAX_PENDING
    }

    pub fn new() -> (r: Self)
        ensures
            r.wf(),
            r.port_spec() == 0,
            r.game_addr_spec() is None,
            r.inbox_spec() == Seq::<String>::empty(),
            r.pending_spec() == Seq::<String>::empty(),
    {
        IpcState { port: 0, game_addr: None, inbox: VecDeque::new(), pending: VecDeque::new() }
    }

    pub fn port(&self) -> (r: u16)
        ensures
            r == self.port_spec(),
    {
        self.port
    }

    /// Records the port the IPC socket is bound to.
    pub fn set_port(&mut self, port: u16)
        requires
            old(self).wf(),
        ensures
            final(self).wf(),
            final(self).port_spec() == port,
            final(self).game_addr_spec() == old(self).game_addr_spec(),
            final(self).inbox_spec() == old(self).inbox_spec(),
            final(self).pending_spec() == old(self).pending_spec(),
    {
        self.port = port;
    }

    /// `fgl_ipc_get_port`: the port, or the error when not started.
    pub fn get_port(&self) -> (r: Result<u16, String>)
        ensures
            self.port_spec() == 0 ==> (r matches Err(e) && e@ == "ipc not started"@),
            self.port_spec() != 0 ==> r == Ok::<u16, String>(self.port_spec()),
    {
        if self.port == 0 {
            Err(owned("ipc not started"))
        } else {
            Ok(self.port)
        }
    }

    /// The game address; nothing happens for port 0 (`fgl_ipc_note_game_addr`).
    pub fn note_game_port(&mut self, port: u16)
        requires
            old(self).wf(),
        ensures
            final(self).wf(),
            final(self).game_addr_spec() == if port == 0 {
                old(self).game_addr_spec()
            } else {
                Some(SockAddr { ip: localhost(), port: port })
            },
            final(self).port_spec() == old(self).port_spec(),
            final(self).inbox_spec() == old(self).inbox_spec(),
            final(self).pending_spec() == old(self).pending_spec(),
    {
        if port != 0 {
            self.game_addr = Some(SockAddr { ip: localhost_ip(), port: port });
        }
    }

    /// `deliver_to_game`: with the game's address known, the line joins the
    /// inbox and the address is returned for sending; otherwise the line waits
    /// (dropped when `MAX_PENDING` lines already wait).
    pub fn deliver(&mut self, payload: &str) -> (r: Option<SockAddr>)
        requires
            old(self).wf(),
        ensures
            final(self).wf(),
            r == old(self).game_addr_spec(),
            final(self).port_spec() == old(self).port_spec(),
            final(self).game_addr_spec() == old(self).game_addr_spec(),
            r is Some ==> {
                &&& final(self).inbox_spec().len() == old(self).inbox_spec().len() + 1
                &&& final(self).inbox_spec().drop_last() == old(self).inbox_spec()
                &&& final(self).inbox_spec().last()@ == payload@
                &&& final(self).pending_spec() == old(self).pending_spec()
            },
            r is None ==> {
                &&& final(self).inbox_spec() == old(self).inbox_spec()
                &&& old(self).pending_spec().len() < MAX_PENDING ==> {
                    &&& final(self).pending_spec().len() == old(self).pending_spec().len() + 1
                    &&& final(self).pending_spec().drop_last() == old(self).pending_spec()
                    &&& final(self).pending_spec().last()@ == payload@
                }
                &&& old(self).pending_spec().len() >= MAX_PENDING ==> final(self).pending_spec()
                    == old(self).pending_spec()
            },
    {
        match self.game_addr {
            Some(a) => {
                self.inbox.push_back(owned(payload));
                proof {
                    assert(self.inbox@.drop_last() =~= old(self).inbox@);
                }
                Some(a)
            },
            None => {
                if self.pending.len() < MAX_PENDING {
                    self.pending.push_back(owned(payload));
                    proof {
                        assert(self.pending@.drop_last() =~= old(self).pending@);
                    }
                }
                None
            },
        }
    }

    /// `fgl_ipc_deliver`: a given non-zero game port sets the game address
    /// first, then the line is delivered as by `deliver`.
    pub fn deliver_to_port(&mut self, payload: &str, game_port: Option<u16>) -> (r: Option<SockAddr>)
        requires
            old(self).wf(),
        ensures
            final(self).wf(),
            r == match game_port {
                Some(p) => if p > 0 {
                    Some(SockAddr { ip: localhost(), port: p })
                } else {
                    old(self).game_addr_spec()
                },
                None => old(self).game_addr_spec(),
            },
            final(self).game_addr_spec() == r,
            final(self).port_spec() == old(self).port_spec(),
            r is Some ==> {
                &&& final(self).inbox_spec().drop_last() == old(self).inbox_spec()
                &&& final(self).inbox_spec().len() == old(self).inbox_spec().len() + 1
                &&& final(self).inbox_spec().last()@ == payload@
                &&& final(self).pending_spec() == old(self).pending_spec()
            },
            r is None ==> final(self).inbox_spec() == old(self).inbox_spec(),
    {
        match game_port {
            Some(p) => {
                if p > 0 {
                    self.note_game_port(p);
                }
            },
            None => {},
        }
        self.deliver(payload)
    }

    /// `fgl_ipc_push_inbox`: the line joins the inbox.
    pub fn push_inbox(&mut self, line: String)
        requires
            old(self).wf(),
        ensures
            final(self).wf(),
            final(self).inbox_spec() == old(self).inbox_spec().push(line),
            final(self).pending_spec() == old(self).pending_spec(),
            final(self).game_addr_spec() == old(self).game_addr_spec(),
            final(self).port_spec() == old(self).port_spec(),
    {
        self.inbox.push_back(line);
    }

    /// `fgl_ipc_poll_inbox`: the oldest lines of the inbox, at most
    /// `POLL_BATCH`, in order; the rest stay.
    pub fn poll_inbox(&mut self) -> (r: Vec<String>)
        requires
            old(self).wf(),
        ensures
            final(self).wf(),
            r@.len() == if old(self).inbox_spec().len() < POLL_BATCH {
                old(self).inbox_spec().len()
            } else {
                POLL_BATCH as nat
            },
            r@ == old(self).inbox_spec().take(r@.len() as int),
            final(self).inbox_spec() == old(self).inbox_spec().skip(r@.len() as int),
            final(self).pending_spec() == old(self).pending_spec(),
            final(self).game_addr_spec() == old(self).game_addr_spec(),
            final(self).port_spec() == old(self).port_spec(),
    {
        let ghost start = self.inbox@;
        let n = if self.inbox.len() < POLL_BATCH {
            self.inbox.len()
        } else {
            POLL_BATCH
        };
        let mut out: Vec<String> = Vec::new();
        while out.len() < n
            invariant
                n <= start.len(),
                n <= POLL_BATCH,
                out@.len() <= n,
                out@ == start.take(out@.len() as int),
                self.inbox@ == start.skip(out@.len() as int),
                self.pending@ == old(self).pending@,
                self.game_addr == old(self).game_addr,
                self.port == old(self).port,
            decreases n - out@.len(),
        {
            proof {
                assert(self.inbox@.len() > 0);
            }
            match self.inbox.pop_front() {
                Some(x) => {
                    proof {
                        assert(x == start[out@.len() as int]);
                        assert(start.take(out@.len() + 1int) =~= start.take(out@.len() as int).push(x));
                    }
                    out.push(x);
                    proof {
                        assert(self.inbox@ =~= start.skip(out@.len() as int));
                    }
                },
                None => {},
            }
        }
        out
    }

    /// A datagram from the game at `from`: that becomes the game's address, and
    /// the first time an address is learned every waiting line is returned, in
    /// order, to be sent to it (`flush_pending`).
    pub fn note_sender(&mut self, from: SockAddr) -> (r: Vec<String>)
        requires
            old(self).wf(),
        ensures
            final(self).wf(),
            final(self).game_addr_spec() == Some(from),
            old(self).game_addr_spec() is None ==> {
                &&& r@ == old(self).pending_spec()
                &&& final(self).pending_spec() == Seq::<String>::empty()
            },
            old(self).game_addr_spec() is Some ==> {
                &&& r@ == Seq::<String>::empty()
                &&& final(self).pending_spec() == old(self).pending_spec()
            },
            final(self).inbox_spec() == old(self).inbox_spec(),
            final(self).port_spec() == old(self).port_spec(),
    {
        let first = self.game_addr.is_none();
        self.game_addr = Some(from);
        let mut out: Vec<String> = Vec::new();
        if first {
            let ghost start = self.pending@;
            loop
                invariant
                    out@ + self.pending@ == start,
                    start.len() <= MAX_PENDING,
                    self.inbox@ == old(self).inbox@,
                    self.game_addr == Some(from),
                    self.port == old(self).port,
                ensures
                    out@ == start,
                    self.pending@ == Seq::<String>::empty(),
                    self.inbox@ == old(self).inbox@,
                    self.game_addr == Some(from),
                    self.port == old(self).port,
                decreases self.pending@.len(),
            {
                let ghost before = self.pending@;
                match self.pending.pop_front() {
                    Some(x) => {
                        out.push(x);
                        proof {
                            assert(out@ + self.pending@ =~= start);
                        }
                    },
                    None => {
                        proof {
                            assert(out@ =~= start);
                        }
                        break;
                    },
                }
            }
        }
        out
    }
}

} // verus!
