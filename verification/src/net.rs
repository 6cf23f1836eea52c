//! Addresses as the peer logic reads them, and the table of known peer ports.
use vstd::prelude::*;

use crate::text::{chars_of, copy_range, string_of, strip_leading, strip_leading_spec, strip_trailing, strip_trailing_spec, trim, trim_spec};

verus! {

/// An IP address: version and numeric value (`std::net::IpAddr` as plain values).
#[derive(Clone, Copy, PartialEq, Eq, Structural, Debug)]
pub enum Ip {
    V4(u32),
    V6(u128),
}

impl Ip {
    /// `IpAddr::is_loopback`: 127.0.0.0/8 for version 4, `::1` for version 6.
    pub open spec fn loopback(self) -> bool {
        match self {
            Ip::V4(a) => a / 0x100_0000 == 127,
            Ip::V6(a) => a == 1,
        }
    }

    pub fn is_loopback(&self) -> (r: bool)
        ensures
            r == self.loopback(),
    {
        match *self {
            Ip::V4(a) => a / 0x100_0000 == 127,
            Ip::V6(a) => a == 1,
        }
    }
}

/// 127.0.0.1
pub open spec fn localhost() -> Ip {
    Ip::V4(0x7f00_0001)
}

pub fn localhost_ip() -> (r: Ip)
    ensures
        r == localhost(),
{
    Ip::V4(0x7f00_0001)
}

/// A socket address: IP and UDP port.
#[derive(Clone, Copy, PartialEq, Eq, Structural, Debug)]
pub struct SockAddr {
    pub ip: Ip,
    pub port: u16,
}

/// Peer address text as typed by the user, before `IpAddr` parsing: white space
/// trimmed, then every leading `[` and every trailing `]` removed.
pub open spec fn clean_ip_spec(s: Seq<char>) -> Seq<char> {
    strip_trailing_spec(strip_leading_spec(trim_spec(s), '['), ']')
}

pub fn clean_ip_text(s: &str) -> (r: String)
    ensures
        r@ == clean_ip_spec(s@),
{
    let v = chars_of(s);
    let t = trim(&v);
    let a = strip_leading(&t, '[');
    let b = strip_trailing(&a, ']');
    string_of(&b)
}

/// Where a packet for a peer goes: nowhere for port 0, for my own data port, or
/// for a loopback peer; otherwise the peer's address and the same port on
/// 127.0.0.1 (a second launcher on the same machine).
pub open spec fn dest_addrs_spec(ip: Ip, port: u16, my_port: u16) -> Seq<SockAddr> {
    if port == 0 || port == my_port || ip.loopback() {
        Seq::empty()
    } else {
        seq![SockAddr { ip: ip, port: port }, SockAddr { ip: localhost(), port: port }]
    }
}

pub fn dest_addrs(ip: Ip, port: u16, my_port: u16) -> (r: Vec<SockAddr>)
    ensures
        r@ == dest_addrs_spec(ip, port, my_port),
        forall|i: int| 0 <= i < r.len() ==> #[trigger] r@[i].port == port && port != 0 && port
            != my_port,
{
    let mut v: Vec<SockAddr> = Vec::new();
    if port == 0 {
        return v;
    }
    if port == my_port {
        return v;
    }
    if !ip.is_loopback() {
        v.push(SockAddr { ip: ip, port: port });
        v.push(SockAddr { ip: localhost_ip(), port: port });
    }
    proof {
        assert(v@ =~= dest_addrs_spec(ip, port, my_port));
    }
    v
}

/// The table of known peer ports, one port per IP (the original's
/// `HashMap<IpAddr, u16>`).
pub struct Endpoints {
    entries: Vec<(Ip, u16)>,
}

impl Endpoints {
    /// No IP occurs twice.
    pub closed spec fn wf(&self) -> bool {
        forall|i: int, j: int|
            0 <= i < j < self.entries@.len() ==> #[trigger] self.entries@[i].0
                != #[trigger] self.entries@[j].0
    }

    pub closed spec fn has(&self, ip: Ip) -> bool {
        exists|i: int| 0 <= i < self.entries@.len() && #[trigger] self.entries@[i].0 == ip
    }

    pub closed spec fn view(&self) -> Map<Ip, u16> {
        Map::new(
            |ip: Ip| self.has(ip),
            |ip: Ip|
                self.entries@[choose|i: int|
                    0 <= i < self.entries@.len() && #[trigger] self.entries@[i].0 == ip].1,
        )
    }

    proof fn lemma_at(&self, i: int)
        requires
            self.wf(),
            0 <= i < self.entries@.len(),
        ensures
            self@.dom().contains(self.entries@[i].0),
            self@[self.entries@[i].0] == self.entries@[i].1,
    {
        let ip = self.entries@[i].0;
        assert(self.has(ip));
        let j = choose|j: int| 0 <= j < self.entries@.len() && #[trigger] self.entries@[j].0 == ip;
        if j != i {
            if j < i {
                assert(self.entries@[j].0 != self.entries@[i].0);
            } else {
                assert(self.entries@[i].0 != self.entries@[j].0);
            }
        }
    }

    pub fn new() -> (r: Self)
        ensures
            r.wf(),
            r@ == Map::<Ip, u16>::empty(),
    {
        let r = Endpoints { entries: Vec::new() };
        assert(r@ =~= Map::<Ip, u16>::empty());
        r
    }

    pub fn len(&self) -> (r: usize)
        requires
            self.wf(),
        ensures
            r == self@.len(),
    {
        proof {
            self.lemma_len();
        }
        self.entries.len()
    }

    proof fn lemma_len(&self)
        requires
            self.wf(),
        ensures
            self@.dom().finite(),
            self@.len() == self.entries@.len(),
        decreases self.entries@.len(),
    {
        let n = self.entries@.len();
        let keys = self.entries@.map_values(|e: (Ip, u16)| e.0);
        assert forall|i: int, j: int| 0 <= i < keys.len() && 0 <= j < keys.len() && i != j implies keys[i]
            != keys[j] by {
            if i < j {
                assert(self.entries@[i].0 != self.entries@[j].0);
            } else {
                assert(self.entries@[j].0 != self.entries@[i].0);
            }
        }
        assert(keys.no_duplicates());
        assert(self@.dom() =~= keys.to_set()) by {
            assert forall|ip: Ip| self@.dom().contains(ip) implies keys.to_set().contains(ip) by {
                let i = choose|i: int| 0 <= i < self.entries@.len() && #[trigger] self.entries@[i].0 == ip;
                assert(keys[i] == ip);
            }
            assert forall|ip: Ip| keys.to_set().contains(ip) implies self@.dom().contains(ip) by {
                let i = choose|i: int| 0 <= i < keys.len() && keys[i] == ip;
                assert(self.entries@[i].0 == ip);
            }
        }
        keys.unique_seq_to_set();
    }

    /// The port known for `ip`.
    pub fn get(&self, ip: Ip) -> (r: Option<u16>)
        requires
            self.wf(),
        ensures
            r == (if self@.dom().contains(ip) {
                Some(self@[ip])
            } else {
                None
            }),
    {
        let mut i: usize = 0;
        while i < self.entries.len()
            invariant
                self.wf(),
                i <= self.entries@.len(),
                forall|j: int| 0 <= j < i ==> #[trigger] self.entries@[j].0 != ip,
            decreases self.entries@.len() - i,
        {
            if self.entries[i].0 == ip {
                proof {
                    self.lemma_at(i as int);
                }
                return Some(self.entries[i].1);
            }
            i += 1;
        }
        None
    }

    /// Records `port` for `ip`, replacing what was known.
    pub fn insert(&mut self, ip: Ip, port: u16)
        requires
            old(self).wf(),
        ensures
            final(self).wf(),
            final(self)@ == old(self)@.insert(ip, port),
    {
        let ghost before = *self;
        let mut out: Vec<(Ip, u16)> = Vec::new();
        let mut i: usize = 0;
        while i < self.entries.len()
            invariant
                *self == before,
                before.wf(),
                i <= self.entries@.len(),
                out@.len() == i,
                forall|j: int| 0 <= j < i ==> #[trigger] out@[j].0 == self.entries@[j].0,
                forall|j: int|
                    0 <= j < i ==> #[trigger] out@[j].1 == if self.entries@[j].0 == ip {
                        port
                    } else {
                        self.entries@[j].1
                    },
            decreases self.entries@.len() - i,
        {
            let e = self.entries[i];
            if e.0 == ip {
                out.push((ip, port));
            } else {
                out.push(e);
            }
            i += 1;
        }
        let mut found = false;
        let mut k: usize = 0;
        while k < out.len()
            invariant
                k <= out@.len(),
                found <==> exists|j: int| 0 <= j < k && #[trigger] out@[j].0 == ip,
            decreases out@.len() - k,
        {
            if out[k].0 == ip {
                found = true;
            }
            k += 1;
        }
        if !found {
            out.push((ip, port));
        }
        self.entries = out;
        proof {
            assert(self.wf());
            assert forall|k: Ip| #[trigger] self@.dom().contains(k) == before@.insert(
                ip,
                port,
            ).dom().contains(k) by {
                if self.has(k) {
                    let j = choose|j: int| 0 <= j < self.entries@.len() && #[trigger] self.entries@[j].0 == k;
                    if k != ip {
                        assert(before.entries@[j].0 == k);
                        assert(before.has(k));
                    }
                }
                if before.has(k) {
                    let j = choose|j: int| 0 <= j < before.entries@.len() && #[trigger] before.entries@[j].0 == k;
                    assert(self.entries@[j].0 == k);
                }
                if k == ip {
                    if found {
                        let j = choose|j: int| 0 <= j < before.entries@.len() && #[trigger] self.entries@[j].0 == ip;
                        assert(self.entries@[j].0 == ip);
                    } else {
                        assert(self.entries@[self.entries@.len() - 1].0 == ip);
                    }
                }
            }
            assert forall|k: Ip| #[trigger] self@.dom().contains(k) implies self@[k] == before@.insert(
                ip,
                port,
            )[k] by {
                let j = choose|j: int| 0 <= j < self.entries@.len() && #[trigger] self.entries@[j].0 == k;
                self.lemma_at(j);
                if j < before.entries@.len() {
                    if k != ip {
                        before.lemma_at(j);
                    }
                }
            }
            assert(self@ =~= before@.insert(ip, port));
        }
    }

    /// Keeps the entries that `keep` accepts (`HashMap::retain`).
    fn filtered(&self, drop_ip: Option<Ip>, drop_port: Option<u16>) -> (r: Self)
        requires
            self.wf(),
        ensures
            r.wf(),
            r@ == Map::new(
                |k: Ip|
                    self@.dom().contains(k) && drop_ip != Some(k) && drop_port != Some(self@[k]),
                |k: Ip| self@[k],
            ),
    {
        let mut out: Vec<(Ip, u16)> = Vec::new();
        let ghost idx: Seq<int> = Seq::empty();
        let mut i: usize = 0;
        while i < self.entries.len()
            invariant
                self.wf(),
                i <= self.entries@.len(),
                idx.len() == out@.len(),
                forall|a: int|
                    0 <= a < idx.len() ==> 0 <= #[trigger] idx[a] < i && out@[a]
                        == self.entries@[idx[a]],
                forall|a: int, b: int| 0 <= a < b < idx.len() ==> #[trigger] idx[a] < #[trigger] idx[b],
                forall|j: int|
                    0 <= j < i && drop_ip != Some(#[trigger] self.entries@[j].0) && drop_port != Some(
                        self.entries@[j].1,
                    ) ==> exists|a: int| 0 <= a < idx.len() && idx[a] == j,
                forall|a: int| 0 <= a < out@.len() ==> kept(#[trigger] out@[a], drop_ip, drop_port),
            decreases self.entries@.len() - i,
        {
            let e = self.entries[i];
            let keep_ip = match drop_ip {
                Some(d) => e.0 != d,
                None => true,
            };
            let keep_port = match drop_port {
                Some(d) => e.1 != d,
                None => true,
            };
            let ghost old_idx = idx;
            let ghost old_out = out@;
            if keep_ip && keep_port {
                out.push(e);
                proof {
                    idx = idx.push(i as int);
                    assert(idx[idx.len() - 1] == i);
                    assert(kept(e, drop_ip, drop_port));
                    assert forall|a: int| 0 <= a < out@.len() implies kept(
                        #[trigger] out@[a],
                        drop_ip,
                        drop_port,
                    ) by {
                        if a < old_out.len() {
                            assert(out@[a] == old_out[a]);
                        }
                    }
                }
            }
            proof {
                assert forall|j: int|
                    0 <= j < i + 1 && drop_ip != Some(#[trigger] self.entries@[j].0) && drop_port
                        != Some(self.entries@[j].1) implies exists|a: int|
                    0 <= a < idx.len() && idx[a] == j by {
                    if j < i {
                        let a = choose|a: int| 0 <= a < old_idx.len() && old_idx[a] == j;
                        assert(idx[a] == j);
                    } else {
                        assert(idx[idx.len() - 1] == j);
                    }
                }
            }
            i += 1;
        }
        let r = Endpoints { entries: out };
        proof {
            assert forall|a: int, b: int| 0 <= a < b < r.entries@.len() implies #[trigger] r.entries@[a].0
                != #[trigger] r.entries@[b].0 by {
                assert(idx[a] < idx[b]);
                assert(self.entries@[idx[a]].0 != self.entries@[idx[b]].0);
            }
            assert(r.wf());
            let m = Map::new(
                |k: Ip|
                    self@.dom().contains(k) && drop_ip != Some(k) && drop_port != Some(self@[k]),
                |k: Ip| self@[k],
            );
            assert forall|k: Ip| #[trigger] r@.dom().contains(k) == m.dom().contains(k) by {
                if r.has(k) {
                    let a = choose|a: int| 0 <= a < r.entries@.len() && #[trigger] r.entries@[a].0 == k;
                    self.lemma_at(idx[a]);
                    assert(self.has(k));
                }
                if m.dom().contains(k) {
                    let j = choose|j: int| 0 <= j < self.entries@.len() && #[trigger] self.entries@[j].0 == k;
                    self.lemma_at(j);
                    let a = choose|a: int| 0 <= a < idx.len() && idx[a] == j;
                    assert(r.entries@[a].0 == k);
                }
            }
            assert forall|k: Ip| #[trigger] r@.dom().contains(k) implies r@[k] == m[k] by {
                let a = choose|a: int| 0 <= a < r.entries@.len() && #[trigger] r.entries@[a].0 == k;
                r.lemma_at(a);
                self.lemma_at(idx[a]);
            }
            assert(r@ =~= m);
        }
        r
    }

    /// Forgets `ip`.
    pub fn remove(&mut self, ip: Ip)
        requires
            old(self).wf(),
        ensures
            final(self).wf(),
            final(self)@ == old(self)@.remove(ip),
    {
        let r = self.filtered(Some(ip), None);
        proof {
            assert(r@ =~= self@.remove(ip));
        }
        *self = r;
    }

    /// Forgets every IP whose port is `port`.
    pub fn remove_port(&mut self, port: u16)
        requires
            old(self).wf(),
        ensures
            final(self).wf(),
            final(self)@ == without_port(old(self)@, port),
    {
        let r = self.filtered(None, Some(port));
        proof {
            assert(r@ =~= without_port(self@, port));
        }
        *self = r;
    }

    /// The known (IP, port) pairs.
    pub fn pairs(&self) -> (r: Vec<(Ip, u16)>)
        requires
            self.wf(),
        ensures
            forall|i: int| 0 <= i < r.len() ==> self@.dom().contains(#[trigger] r@[i].0) && self@[r@[i].0] == r@[i].1,
            forall|ip: Ip| #[trigger] self@.dom().contains(ip) ==> exists|i: int| 0 <= i < r.len() && r@[i].0 == ip,
            r.len() == self@.len(),
    {
        proof {
            self.lemma_len();
            assert forall|ip: Ip| #[trigger] self@.dom().contains(ip) implies exists|i: int|
                0 <= i < self.entries@.len() && self.entries@[i].0 == ip by {
                let i = choose|i: int| 0 <= i < self.entries@.len() && #[trigger] self.entries@[i].0 == ip;
                assert(self.entries@[i].0 == ip);
            }
            assert forall|i: int| 0 <= i < self.entries@.len() implies self@.dom().contains(#[trigger] self.entries@[i].0) && self@[self.entries@[i].0] == self.entries@[i].1 by {
                self.lemma_at(i);
            }
        }
        let r = copy_range(&self.entries, 0, self.entries.len());
        assert(r@ =~= self.entries@);
        r
    }
}

spec fn kept(e: (Ip, u16), drop_ip: Option<Ip>, drop_port: Option<u16>) -> bool {
    drop_ip != Some(e.0) && drop_port != Some(e.1)
}

/// The map without the IPs whose port is `port`.
pub open spec fn without_port(m: Map<Ip, u16>, port: u16) -> Map<Ip, u16> {
    Map::new(|k: Ip| m.dom().contains(k) && m[k] != port, |k: Ip| m[k])
}

} // verus!
