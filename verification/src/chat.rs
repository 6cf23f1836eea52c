//! Chat between launchers: packets, known reply ports, and who a message goes to.
use vstd::prelude::*;

use crate::net::{Endpoints, Ip, SockAddr};
use crate::text::{chars_of, owned, string_of, trim, trim_spec};

verus! {

/// A chat packet (serialised as JSON by the app, with `kind` under the key
/// `type`).
pub struct ChatPacket {
    pub v: u32,
    pub kind: String,
    pub pseudo: String,
    pub text: String,
    pub plugin: String,
    pub action: String,
    pub ts: u64,
    /// UDP port the sender listens on, so that two launchers on one machine
    /// can answer each other.
    pub reply_port: u16,
}

/// The chat's state as its logic reads it: my port, and each peer's last known
/// chat port.
pub struct ChatState {
    port: u16,
    endpoints: Endpoints,
}

/// Destinations of a chat message: each parsed peer address (`None` for text
/// that did not parse) that has a known port.
pub open spec fn chat_dests(peers: Seq<Option<Ip>>, eps: Map<Ip, u16>) -> Seq<SockAddr>
    decreases peers.len(),
{
    if peers.len() == 0 {
        Seq::empty()
    } else {
        chat_dests(peers.drop_last(), eps) + match peers.last() {
            Some(ip) => if eps.dom().contains(ip) {
                seq![SockAddr { ip: ip, port: eps[ip] }]
            } else {
                Seq::empty()
            },
            None => Seq::empty(),
        }
    }
}

/// Law: a peer whose reply port was remembered is sent the next message on
/// that port, and on nothing else.
pub proof fn lemma_remembered_peer_is_reached(eps: Map<Ip, u16>, ip: Ip, port: u16)
    requires
        port != 0,
    ensures
        chat_dests(seq![Some(ip)], eps.insert(ip, port)) == seq![SockAddr { ip: ip, port: port }],
{
    let peers = seq![Some(ip)];
    let m = eps.insert(ip, port);
    assert(peers.drop_last() =~= Seq::<Option<Ip>>::empty());
    assert(chat_dests(peers.drop_last(), m) == Seq::<SockAddr>::empty());
    assert(peers.last() == Some(ip));
    assert(m.dom().contains(ip) && m[ip] == port);
    assert(chat_dests(peers, m) =~= seq![SockAddr { ip: ip, port: port }]);
}

/// No known port is 0.
pub open spec fn ports_nonzero(eps: Map<Ip, u16>) -> bool {
    forall|k: Ip| #[trigger] eps.dom().contains(k) ==> eps[k] != 0
}

impl ChatState {
    pub closed spec fn port_spec(&self) -> u16 {
        self.port
    }

    pub closed spec fn endpoints_map(&self) -> Map<Ip, u16> {
        self.endpoints@
    }

    pub closed spec fn endpoints_wf(&self) -> bool {
        self.endpoints.wf()
    }

    /// Known ports are never 0.
    pub open spec fn wf(&self) -> bool {
        &&& self.endpoints_wf()
        &&& ports_nonzero(self.endpoints_map())
    }

    pub fn new() -> (r: Self)
        ensures
            r.wf(),
            r.port_spec() == 0,
            r.endpoints_map() == Map::<Ip, u16>::empty(),
    {
        ChatState { port: 0, endpoints: Endpoints::new() }
    }

    pub fn port(&self) -> (r: u16)
        ensures
            r == self.port_spec(),
    {
        self.port
    }

    /// Records the port the chat socket is bound to.
    pub fn set_port(&mut self, port: u16)
        requires
            old(self).wf(),
        ensures
            final(self).wf(),
            final(self).port_spec() == port,
            final(self).endpoints_map() == old(self).endpoints_map(),
    {
        self.port = port;
    }

    /// `chat_stop`: the port goes back to 0; known peer ports stay.
    pub fn stop(&mut self)
        requires
            old(self).wf(),
        ensures
            final(self).wf(),
            final(self).port_spec() == 0,
            final(self).endpoints_map() == old(self).endpoints_map(),
    {
        self.port = 0;
    }

    /// `chat_remember_endpoint`: records a peer's chat port; port 0 and
    /// addresses that did not parse change nothing.
    pub fn remember(&mut self, ip: Option<Ip>, port: u16)
        requires
            old(self).wf(),
        ensures
            final(self).wf(),
            final(self).port_spec() == old(self).port_spec(),
            (port == 0 || ip is None) ==> final(self).endpoints_map() == old(self).endpoints_map(),
            !(port == 0 || ip is None) ==> final(self).endpoints_map() == old(
                self,
            ).endpoints_map().insert(ip->0, port),
    {
        if port == 0 {
            return;
        }
        match ip {
            Some(ip) => {
                self.endpoints.insert(ip, port);
            },
            None => {},
        }
    }

    /// Where a message for the given peers goes (`send_to_peers`): peers with no
    /// known port are skipped.
    pub fn targets(&self, peers: &Vec<Option<Ip>>) -> (r: Vec<SockAddr>)
        requires
            self.wf(),
        ensures
            r@ == chat_dests(peers@, self.endpoints_map()),
            forall|i: int| 0 <= i < r.len() ==> (#[trigger] r@[i]).port != 0,
    {
        let mut out: Vec<SockAddr> = Vec::new();
        let mut i: usize = 0;
        proof {
            assert(peers@.take(0) =~= Seq::<Option<Ip>>::empty());
        }
        while i < peers.len()
            invariant
                self.wf(),
                i <= peers@.len(),
                out@ == chat_dests(peers@.take(i as int), self.endpoints@),
                forall|j: int| 0 <= j < out.len() ==> (#[trigger] out@[j]).port != 0,
            decreases peers@.len() - i,
        {
            let ghost before = out@;
            proof {
                let t = peers@.take(i + 1);
                assert(t.drop_last() =~= peers@.take(i as int));
                assert(t.last() == peers@[i as int]);
            }
            match peers[i] {
                Some(ip) => {
                    match self.endpoints.get(ip) {
                        Some(port) => {
                            proof {
                                assert(self.endpoints@.dom().contains(ip));
                                assert(port != 0);
                            }
                            out.push(SockAddr { ip: ip, port: port });
                            proof {
                                assert(out@ =~= before + seq![SockAddr { ip: ip, port: port }]);
                                assert forall|j: int| 0 <= j < out.len() implies (
                                #[trigger] out@[j]).port != 0 by {
                                    if j < before.len() {
                                        assert(out@[j] == before[j]);
                                    }
                                }
                            }
                        },
                        None => {
                            proof {
                                assert(out@ =~= before + Seq::<SockAddr>::empty());
                            }
                        },
                    }
                },
                None => {
                    proof {
                        assert(out@ =~= before + Seq::<SockAddr>::empty());
                    }
                },
            }
            i += 1;
        }
        proof {
            assert(peers@.take(peers@.len() as int) =~= peers@);
        }
        out
    }
}

/// `chat_send`: the chat packet for a message, with its text trimmed; none when
/// nothing but white space is left.
pub fn chat_message_packet(pseudo: &str, text: &str, ts: u64, reply_port: u16) -> (r: Option<
    ChatPacket,
>)
    ensures
        trim_spec(text@).len() == 0 <==> r is None,
        r matches Some(p) ==> {
            &&& p.v == 1
            &&& p.kind@ == "chat"@
            &&& p.pseudo@ == pseudo@
            &&& p.text@ == trim_spec(text@)
            &&& p.plugin@ == Seq::<char>::empty()
            &&& p.action@ == Seq::<char>::empty()
            &&& p.ts == ts
            &&& p.reply_port == reply_port
        },
{
    let t = trim(&chars_of(text));
    if t.len() == 0 {
        return None;
    }
    Some(
        ChatPacket {
            v: 1,
            kind: owned("chat"),
            pseudo: owned(pseudo),
            text: string_of(&t),
            plugin: String::new(),
            action: String::new(),
            ts: ts,
            reply_port: reply_port,
        },
    )
}

/// `chat_send_cmd`: the command packet for a plugin action.
pub fn chat_command_packet(pseudo: &str, plugin: &str, action: &str, ts: u64, reply_port: u16) -> (r:
    ChatPacket)
    ensures
        r.v == 1,
        r.kind@ == "cmd"@,
        r.pseudo@ == pseudo@,
        r.text@ == Seq::<char>::empty(),
        r.plugin@ == plugin@,
        r.action@ == action@,
        r.ts == ts,
        r.reply_port == reply_port,
{
    ChatPacket {
        v: 1,
        kind: owned("cmd"),
        pseudo: owned(pseudo),
        text: String::new(),
        plugin: owned(plugin),
        action: owned(action),
        ts: ts,
        reply_port: reply_port,
    }
}

/// A received chat packet as the reader passes it on: a sender that gave no
/// reply port is answered on the port it sent from. The returned packet's
/// `reply_port` is also the port announced for the sender's address.
pub fn chat_incoming(pkt: ChatPacket, from_port: u16) -> (r: ChatPacket)
    ensures
        r.reply_port == if pkt.reply_port == 0 {
            from_port
        } else {
            pkt.reply_port
        },
        r.v == pkt.v,
        r.kind == pkt.kind,
        r.pseudo == pkt.pseudo,
        r.text == pkt.text,
        r.plugin == pkt.plugin,
        r.action == pkt.action,
        r.ts == pkt.ts,
{
    let mut out = pkt;
    if out.reply_port == 0 {
        out.reply_port = from_port;
    }
    out
}

} // verus!
