//! FGL_Link: peer-to-peer relay between launchers. No echo to oneself, and
//! learned peer ports stay put (never mapped to the launcher's own data port).
use vstd::prelude::*;
use vstd::string::StringSliceAdditionalSpecFns;
use vstd::utf8::encode_utf8;

use crate::net::{
    dest_addrs, dest_addrs_spec, localhost, localhost_ip, without_port, Endpoints, Ip, SockAddr,
};
use crate::text::{
    after_first_line, all_digits, chars_of, concat, copy_range, decimal, decimal_spec,
    eq_ignore_ascii_case, eq_ignore_ascii_case_spec, first_line, has_prefix, is_digit,
    is_white_space, lemma_after_first_line_shorter, lemma_decimal_digits, lemma_index_of_at,
    next_line, owned, parse_u16, parse_u64, parse_unsigned, same_text, starts_with, strip_cr,
    strip_prefix_or_keep, string_of, trim, trim_end_spec, trim_spec, trim_start_spec,
    unsigned_digits, without_prefix,
};

verus! {

/// A packet exchanged between launchers (serialised as JSON by the app, with
/// `kind` under the key `type`).
pub struct LinkPacket {
    pub v: u32,
    pub kind: String,
    pub from: String,
    pub payload: String,
    pub reply_port: u16,
    pub ts: u64,
}

// ------------------------------------------------------------------
// Sequence numbers of player lines
// ------------------------------------------------------------------

/// What follows the last `|` (`str::rsplit('|').next()`).
pub open spec fn last_segment(s: Seq<char>) -> Seq<char>
    decreases s.len(),
{
    if s.len() == 0 {
        s
    } else if s.last() == '|' {
        Seq::empty()
    } else {
        last_segment(s.drop_last()).push(s.last())
    }
}

/// The sequence number a player line carries: its last `|`-separated field,
/// trimmed, as a `u64`; 0 when that field is not a number.
pub open spec fn seq_of_payload(p: Seq<char>) -> u64 {
    match parse_unsigned(
        trim_spec(last_segment(without_prefix(p, "PLAYER|"@))),
        u64::MAX as nat,
    ) {
        Some(v) => v as u64,
        None => 0,
    }
}

pub fn last_segment_of(s: &Vec<char>) -> (r: Vec<char>)
    ensures
        r@ == last_segment(s@),
{
    let n = s.len();
    let mut k: usize = n;
    proof {
        assert(s@.take(n as int) =~= s@);
        assert(s@.subrange(n as int, n as int) =~= Seq::<char>::empty());
        assert(last_segment(s@) =~= last_segment(s@.take(n as int)) + s@.subrange(
            n as int,
            n as int,
        ));
    }
    while k > 0 && s[k - 1] != '|'
        invariant
            k <= n == s.len(),
            last_segment(s@) == last_segment(s@.take(k as int)) + s@.subrange(k as int, n as int),
        decreases k,
    {
        proof {
            let t = s@.take(k as int);
            assert(t.drop_last() =~= s@.take(k - 1));
            assert(last_segment(t) == last_segment(s@.take(k - 1)).push(s@[k - 1]));
            assert(last_segment(s@.take(k - 1)).push(s@[k - 1]) + s@.subrange(k as int, n as int)
                =~= last_segment(s@.take(k - 1)) + s@.subrange(k - 1, n as int));
        }
        k -= 1;
    }
    proof {
        assert(last_segment(s@.take(k as int)) =~= Seq::<char>::empty());
        assert(last_segment(s@) =~= s@.subrange(k as int, n as int));
    }
    copy_range(s, k, n)
}

/// The sequence number of a player line (trace only in the original).
pub fn extract_seq(payload: &str) -> (r: u64)
    ensures
        r == seq_of_payload(payload@),
{
    let p = chars_of(payload);
    let prefix = chars_of("PLAYER|");
    let body = strip_prefix_or_keep(&p, &prefix);
    let seg = last_segment_of(&body);
    let t = trim(&seg);
    match parse_u64(&t) {
        Some(v) => v,
        None => 0,
    }
}

/// After a text that ends with `|`, only what follows counts.
pub proof fn lemma_last_segment_after_bar(a: Seq<char>, b: Seq<char>)
    requires
        a.len() > 0,
        a.last() == '|',
    ensures
        last_segment(a + b) == last_segment(b),
    decreases b.len(),
{
    if b.len() == 0 {
        assert(a + b =~= a);
    } else {
        lemma_last_segment_after_bar(a, b.drop_last());
        assert((a + b).drop_last() =~= a + b.drop_last());
    }
}

/// Law: the `PLAYER|` tag in front of a line does not change its sequence
/// number.
pub proof fn lemma_seq_ignores_player_tag(b: Seq<char>)
    ensures
        seq_of_payload("PLAYER|"@ + b) == seq_of_payload(b),
{
    reveal_strlit("PLAYER|");
    let pre = "PLAYER|"@;
    assert(("PLAYER|"@ + b).take(pre.len() as int) =~= pre);
    assert(("PLAYER|"@ + b).skip(pre.len() as int) =~= b);
    if has_prefix(b, pre) {
        assert(b =~= pre + b.skip(pre.len() as int));
        lemma_last_segment_after_bar(pre, b.skip(pre.len() as int));
    }
}

// ------------------------------------------------------------------
// Discovery port
// ------------------------------------------------------------------

/// 32-bit FNV-1a hash of bytes.
pub open spec fn fnv1a(bytes: Seq<u8>) -> u32
    decreases bytes.len(),
{
    if bytes.len() == 0 {
        2166136261
    } else {
        (((fnv1a(bytes.drop_last()) ^ (bytes.last() as u32)) as nat * 16777619) % 0x1_0000_0000) as u32
    }
}

/// The UDP discovery port shared by every launcher of a network name.
pub open spec fn discovery_port_spec(network: Seq<u8>) -> u16 {
    (40000 + fnv1a(network) % 20000) as u16
}

pub fn discovery_port(network: &str) -> (r: u16)
    ensures
        r == discovery_port_spec(network.spec_bytes()),
        40000 <= r < 60000,
{
    let b = network.as_bytes();
    let mut h: u32 = 2166136261;
    let mut i: usize = 0;
    while i < b.len()
        invariant
            i <= b@.len(),
            h == fnv1a(b@.take(i as int)),
        decreases b@.len() - i,
    {
        proof {
            assert(b@.take(i + 1).drop_last() =~= b@.take(i as int));
        }
        h ^= b[i] as u32;
        h = h.wrapping_mul(16777619);
        i += 1;
    }
    proof {
        assert(b@.take(b@.len() as int) =~= b@);
    }
    40000 + (h % 20000) as u16
}

/// The discovery port of the `fangame` network.
pub fn fangame_discovery_port() -> (r: u16)
    ensures
        r == discovery_port_spec("fangame".spec_bytes()),
        40000 <= r < 60000,
{
    discovery_port("fangame")
}

// ------------------------------------------------------------------
// The file of local data ports
// ------------------------------------------------------------------

/// The port a line of the ports file names: the line trimmed, as a `u16`,
/// when not 0.
pub open spec fn line_port(line: Seq<char>) -> Option<u16> {
    match parse_unsigned(trim_spec(line), u16::MAX as nat) {
        Some(p) => if p > 0 {
            Some(p as u16)
        } else {
            None
        },
        None => None,
    }
}

/// The ports named by the lines of a ports file.
pub open spec fn ports_in(text: Seq<char>) -> Set<u16>
    decreases text.len(),
{
    if text.len() == 0 {
        Set::empty()
    } else {
        proof {
            lemma_after_first_line_shorter(text);
        }
        let rest = ports_in(after_first_line(text));
        match line_port(first_line(text)) {
            Some(p) => rest.insert(p),
            None => rest,
        }
    }
}

pub open spec fn strictly_sorted(s: Seq<u16>) -> bool {
    forall|i: int, j: int| 0 <= i < j < s.len() ==> #[trigger] s[i] < #[trigger] s[j]
}

/// `ports` with `p` added, kept in increasing order (`BTreeSet::insert`).
pub fn insert_port(ports: &Vec<u16>, p: u16) -> (r: Vec<u16>)
    requires
        strictly_sorted(ports@),
    ensures
        strictly_sorted(r@),
        r@.to_set() == ports@.to_set().insert(p),
{
    let n = ports.len();
    let mut i: usize = 0;
    while i < n && ports[i] < p
        invariant
            i <= n == ports.len(),
            forall|j: int| 0 <= j < i ==> #[trigger] ports@[j] < p,
        decreases n - i,
    {
        i += 1;
    }
    if i < n && ports[i] == p {
        let r = copy_range(ports, 0, n);
        proof {
            assert(r@ =~= ports@);
            assert(ports@.to_set().contains(p));
            assert(ports@.to_set().insert(p) =~= ports@.to_set());
        }
        return r;
    }
    let mut r = copy_range(ports, 0, i);
    r.push(p);
    let tail = copy_range(ports, i, n);
    let r = concat(&r, &tail);
    proof {
        assert(r@ =~= ports@.take(i as int).push(p) + ports@.skip(i as int));
        assert forall|a: int, b: int| 0 <= a < b < r@.len() implies #[trigger] r@[a] < #[trigger] r@[b] by {
            if a < i && b < i {
                assert(ports@[a] < ports@[b]);
            } else if a < i && b > i {
                assert(ports@[a] < ports@[b - 1]);
            } else if a == i && b > i {
                assert(ports@[b - 1] >= ports@[i as int]);
            } else if a > i {
                assert(ports@[a - 1] < ports@[b - 1]);
            }
        }
        assert forall|x: u16| #[trigger] r@.to_set().contains(x) == ports@.to_set().insert(
            p,
        ).contains(x) by {
            if r@.to_set().contains(x) {
                let a = choose|a: int| 0 <= a < r@.len() && r@[a] == x;
                if a < i {
                    assert(ports@[a] == x);
                } else if a > i {
                    assert(ports@[a - 1] == x);
                }
            }
            if ports@.to_set().contains(x) {
                let a = choose|a: int| 0 <= a < ports@.len() && ports@[a] == x;
                if a < i {
                    assert(r@[a] == x);
                } else {
                    assert(r@[a + 1] == x);
                }
            }
            if x == p {
                assert(r@[i as int] == x);
            }
        }
        assert(r@.to_set() =~= ports@.to_set().insert(p));
    }
    r
}

/// The ports named in the text of a ports file, in increasing order, each once
/// (the original's `BTreeSet<u16>`).
pub fn parse_local_ports(text: &str) -> (r: Vec<u16>)
    ensures
        strictly_sorted(r@),
        r@.to_set() == ports_in(text@),
{
    let s = chars_of(text);
    let n = s.len();
    let mut acc: Vec<u16> = Vec::new();
    let mut pos: usize = 0;
    proof {
        assert(s@.skip(0) =~= s@);
        assert(acc@.to_set() =~= Set::<u16>::empty());
    }
    while pos < n
        invariant
            pos <= n == s.len(),
            s@ == text@,
            strictly_sorted(acc@),
            acc@.to_set().union(ports_in(s@.skip(pos as int))) == ports_in(s@),
        decreases n - pos,
    {
        let (line, next) = next_line(&s, pos);
        let t = trim(&line);
        let ghost rest = s@.skip(pos as int);
        proof {
            assert(rest.len() > 0);
            assert(ports_in(rest) == match line_port(first_line(rest)) {
                Some(p) => ports_in(after_first_line(rest)).insert(p),
                None => ports_in(after_first_line(rest)),
            });
        }
        match parse_u16(&t) {
            Some(p) => {
                if p > 0 {
                    let ghost before = acc@.to_set();
                    acc = insert_port(&acc, p);
                    proof {
                        assert(line_port(first_line(rest)) == Some(p));
                        assert(acc@.to_set().union(ports_in(s@.skip(next as int))) =~= before.union(
                            ports_in(rest),
                        ));
                    }
                } else {
                    proof {
                        assert(line_port(first_line(rest)) is None);
                    }
                }
            },
            None => {
                proof {
                    assert(line_port(first_line(rest)) is None);
                }
            },
        }
        pos = next;
    }
    proof {
        assert(s@.skip(n as int) =~= Seq::<char>::empty());
        assert(ports_in(Seq::<char>::empty()) == Set::<u16>::empty());
        assert(acc@.to_set().union(Set::<u16>::empty()) =~= acc@.to_set());
    }
    acc
}

/// The ports file's text: each port's decimal form, one per line, separated by
/// `\n` (no final line ending).
pub open spec fn render_ports_spec(s: Seq<u16>) -> Seq<char>
    decreases s.len(),
{
    if s.len() == 0 {
        Seq::empty()
    } else if s.len() == 1 {
        decimal_spec(s[0] as nat)
    } else {
        decimal_spec(s[0] as nat) + seq!['\n'] + render_ports_spec(s.drop_first())
    }
}

fn render_from(ports: &Vec<u16>, i: usize) -> (r: Vec<char>)
    requires
        i <= ports.len(),
    ensures
        r@ == render_ports_spec(ports@.skip(i as int)),
    decreases ports.len() - i,
{
    let ghost s = ports@.skip(i as int);
    if i == ports.len() {
        proof {
            assert(s =~= Seq::<u16>::empty());
        }
        return Vec::new();
    }
    let d = decimal(ports[i] as u64);
    if i + 1 == ports.len() {
        proof {
            assert(s.len() == 1 && s[0] == ports@[i as int]);
        }
        return d;
    }
    let mut nl: Vec<char> = Vec::new();
    nl.push('\n');
    let rest = render_from(ports, i + 1);
    proof {
        assert(s.drop_first() =~= ports@.skip(i + 1));
        assert(s[0] == ports@[i as int]);
    }
    let a = concat(&d, &nl);
    concat(&a, &rest)
}

/// The text written to the ports file.
pub fn render_local_ports(ports: &Vec<u16>) -> (r: String)
    ensures
        r@ == render_ports_spec(ports@),
{
    proof {
        assert(ports@.skip(0) =~= ports@);
    }
    string_of(&render_from(ports, 0))
}

proof fn lemma_trim_digits(s: Seq<char>)
    requires
        s.len() > 0,
        all_digits(s),
    ensures
        trim_spec(s) == s,
{
    assert(!is_white_space(s[0]));
    assert(trim_start_spec(s) == s);
    assert(!is_white_space(s.last()));
    assert(trim_end_spec(s) == s);
}

proof fn lemma_line_port_decimal(p: u16)
    requires
        p > 0,
    ensures
        line_port(decimal_spec(p as nat)) == Some(p),
{
    let d = decimal_spec(p as nat);
    lemma_decimal_digits(p as nat);
    lemma_trim_digits(d);
    assert(unsigned_digits(d) == d);
}

/// Law: the ports file reads back as the set of ports written into it.
pub proof fn lemma_local_ports_round_trip(s: Seq<u16>)
    requires
        forall|i: int| 0 <= i < s.len() ==> #[trigger] s[i] > 0,
    ensures
        ports_in(render_ports_spec(s)) == s.to_set(),
    decreases s.len(),
{
    if s.len() == 0 {
        assert(s.to_set() =~= Set::<u16>::empty());
    } else {
        let d = decimal_spec(s[0] as nat);
        lemma_decimal_digits(s[0] as nat);
        lemma_line_port_decimal(s[0]);
        let text = render_ports_spec(s);
        assert forall|j: int| 0 <= j < d.len() implies d[j] != '\n' by {
            assert(is_digit(d[j]));
        }
        if s.len() == 1 {
            lemma_index_of_at(d, '\n', d.len() as int);
            assert(first_line(text) == d);
            assert(after_first_line(text) =~= Seq::<char>::empty());
            assert(ports_in(Seq::<char>::empty()) == Set::<u16>::empty());
            assert(ports_in(text) == ports_in(after_first_line(text)).insert(s[0]));
            assert(s.to_set() =~= Set::<u16>::empty().insert(s[0])) by {
                assert forall|x: u16| #[trigger] s.to_set().contains(x) == (x == s[0]) by {
                    if s.to_set().contains(x) {
                        let a = choose|a: int| 0 <= a < s.len() && s[a] == x;
                        assert(a == 0);
                    }
                    if x == s[0] {
                        assert(s[0] == x);
                    }
                }
            }
        } else {
            let rest = render_ports_spec(s.drop_first());
            assert(text == d + seq!['\n'] + rest);
            assert forall|j: int| 0 <= j < d.len() implies text[j] != '\n' by {
                assert(text[j] == d[j]);
            }
            assert(text[d.len() as int] == '\n');
            lemma_index_of_at(text, '\n', d.len() as int);
            assert(text.take(d.len() as int) =~= d);
            assert(is_digit(d.last()));
            assert(strip_cr(d) == d);
            assert(first_line(text) == d);
            assert(after_first_line(text) =~= rest);
            assert forall|i: int| 0 <= i < s.drop_first().len() implies #[trigger] s.drop_first()[i]
                > 0 by {
                assert(s.drop_first()[i] == s[i + 1]);
            }
            lemma_local_ports_round_trip(s.drop_first());
            assert(ports_in(text) == ports_in(rest).insert(s[0]));
            assert(s.to_set() =~= s.drop_first().to_set().insert(s[0])) by {
                assert forall|x: u16| #[trigger] s.to_set().contains(x) == s.drop_first().to_set().insert(
                    s[0],
                ).contains(x) by {
                    if s.to_set().contains(x) {
                        let a = choose|a: int| 0 <= a < s.len() && s[a] == x;
                        if a > 0 {
                            assert(s.drop_first()[a - 1] == x);
                        }
                    }
                    if s.drop_first().to_set().contains(x) {
                        let a = choose|a: int| 0 <= a < s.drop_first().len() && s.drop_first()[a] == x;
                        assert(s[a + 1] == x);
                    }
                }
            }
        }
    }
}

// ------------------------------------------------------------------
// Link state: own data port, peers, learned endpoints
// ------------------------------------------------------------------

/// The link's state as the relay logic reads it.
pub struct LinkState {
    port: u16,
    peer_ips: Vec<Ip>,
    endpoints: Endpoints,
    my_pseudo: String,
    discovery_bound: bool,
    last_bootstrap: Option<u128>,
}

/// Destinations of one relayed packet, with the packet itself.
pub struct RelayPlan {
    pub packet: LinkPacket,
    pub dests: Vec<SockAddr>,
}

/// What an incoming link packet leads to.
pub enum LinkReceive {
    /// Sent by this very launcher (its data port or its pseudo): dropped.
    SelfEcho,
    /// From another launcher; `to_game` is the line handed to the local game.
    Accepted { learned: bool, to_game: Option<String> },
}

/// `peer` gets the remote port when a loopback packet arrives: it is a peer
/// with no port yet, or one mapped to my own data port.
pub open spec fn fills(eps: Map<Ip, u16>, peers: Seq<Ip>, k: Ip, my_port: u16) -> bool {
    &&& peers.contains(k)
    &&& !k.loopback()
    &&& (!eps.dom().contains(k) || eps[k] == my_port)
}

pub open spec fn fill_map(eps: Map<Ip, u16>, peers: Seq<Ip>, remote: u16, my_port: u16) -> Map<
    Ip,
    u16,
> {
    Map::new(
        |k: Ip| eps.dom().contains(k) || fills(eps, peers, k, my_port),
        |k: Ip|
            if fills(eps, peers, k, my_port) {
                remote
            } else {
                eps[k]
            },
    )
}

/// The endpoint table after learning that `from` answers on port `remote`: a
/// packet from a real (non-loopback) address sets that address's port; one from
/// loopback only fills peers that have no port or my own port. Then every entry
/// on my own port, and 127.0.0.1, is dropped.
pub open spec fn learned_endpoints(
    eps: Map<Ip, u16>,
    peers: Seq<Ip>,
    from: Ip,
    remote: u16,
    my_port: u16,
) -> Map<Ip, u16> {
    let stepped = if !from.loopback() {
        eps.insert(from, remote)
    } else {
        fill_map(eps, peers, remote, my_port)
    };
    without_port(stepped, my_port).remove(localhost())
}

/// Whether learning changed a port.
pub open spec fn learn_reports(
    eps: Map<Ip, u16>,
    peers: Seq<Ip>,
    from: Ip,
    remote: u16,
    my_port: u16,
) -> bool {
    if !from.loopback() {
        !(eps.dom().contains(from) && eps[from] == remote)
    } else {
        exists|k: Ip| fills(eps, peers, k, my_port)
    }
}

/// The peer list after a packet from `from`: a real address joins it once.
pub open spec fn peers_after(peers: Seq<Ip>, from: Ip) -> Seq<Ip> {
    if !from.loopback() && !peers.contains(from) {
        peers.push(from)
    } else {
        peers
    }
}

/// The peer list after `fgl_link_set_peers`: each given real address, in order,
/// joins it once.
pub open spec fn peers_with(peers: Seq<Ip>, ips: Seq<Option<Ip>>) -> Seq<Ip>
    decreases ips.len(),
{
    if ips.len() == 0 {
        peers
    } else {
        let q = peers_with(peers, ips.drop_last());
        match ips.last() {
            Some(ip) => if !ip.loopback() && !q.contains(ip) {
                q.push(ip)
            } else {
                q
            },
            None => q,
        }
    }
}

/// The port learned for `ip`, 0 when none.
pub open spec fn data_port(eps: Map<Ip, u16>, ip: Ip) -> u16 {
    if eps.dom().contains(ip) {
        eps[ip]
    } else {
        0
    }
}

/// Destinations of a data packet for one peer: its learned data port, then the
/// discovery port.
pub open spec fn peer_dests(eps: Map<Ip, u16>, ip: Ip, my_port: u16, dport: u16) -> Seq<SockAddr> {
    dest_addrs_spec(ip, data_port(eps, ip), my_port) + dest_addrs_spec(ip, dport, my_port)
}

pub open spec fn relay_dests(peers: Seq<Ip>, eps: Map<Ip, u16>, my_port: u16, dport: u16) -> Seq<
    SockAddr,
>
    decreases peers.len(),
{
    if peers.len() == 0 {
        Seq::empty()
    } else {
        relay_dests(peers.drop_last(), eps, my_port, dport) + peer_dests(
            eps,
            peers.last(),
            my_port,
            dport,
        )
    }
}

pub open spec fn send_dests(ips: Seq<Option<Ip>>, eps: Map<Ip, u16>, my_port: u16, dport: u16) -> Seq<
    SockAddr,
>
    decreases ips.len(),
{
    if ips.len() == 0 {
        Seq::empty()
    } else {
        send_dests(ips.drop_last(), eps, my_port, dport) + match ips.last() {
            Some(ip) => peer_dests(eps, ip, my_port, dport),
            None => Seq::empty(),
        }
    }
}

/// Announce destinations for one peer: the discovery port, then its data port.
pub open spec fn announce_dests(peers: Seq<Ip>, eps: Map<Ip, u16>, my_port: u16, dport: u16) -> Seq<
    SockAddr,
>
    decreases peers.len(),
{
    if peers.len() == 0 {
        Seq::empty()
    } else {
        announce_dests(peers.drop_last(), eps, my_port, dport) + dest_addrs_spec(
            peers.last(),
            dport,
            my_port,
        ) + dest_addrs_spec(peers.last(), data_port(eps, peers.last()), my_port)
    }
}

/// Announce destinations on the other local data ports: 127.0.0.1, then each
/// peer, on every listed port but mine.
pub open spec fn local_dests(ports: Seq<u16>, peers: Seq<Ip>, my_port: u16) -> Seq<SockAddr>
    decreases ports.len(),
{
    if ports.len() == 0 {
        Seq::empty()
    } else {
        let p = ports.last();
        local_dests(ports.drop_last(), peers, my_port) + if p == my_port {
            Seq::empty()
        } else {
            seq![SockAddr { ip: localhost(), port: p }] + peers.map_values(
                |ip: Ip| SockAddr { ip: ip, port: p },
            )
        }
    }
}

/// Peers are real addresses, each once.
pub open spec fn peers_ok(peers: Seq<Ip>) -> bool {
    &&& peers.no_duplicates()
    &&& forall|i: int| 0 <= i < peers.len() ==> !(#[trigger] peers[i]).loopback()
}

/// Learned endpoints are real addresses with a non-zero port.
pub open spec fn endpoints_ok(eps: Map<Ip, u16>) -> bool {
    forall|k: Ip| #[trigger] eps.dom().contains(k) ==> !k.loopback() && eps[k] != 0
}

/// The line handed to the game for a player payload: tagged `PLAYER|`.
pub open spec fn player_line(payload: Seq<char>) -> Seq<char> {
    if has_prefix(payload, "PLAYER|"@) {
        payload
    } else {
        "PLAYER|"@ + payload
    }
}

/// Law: a player line relayed with its tag removed is handed to the receiving
/// game as the same line (for a non-empty line body that is not itself tagged).
pub proof fn lemma_player_line_round_trip(b: Seq<char>)
    requires
        !has_prefix(b, "PLAYER|"@),
    ensures
        player_line(without_prefix("PLAYER|"@ + b, "PLAYER|"@)) == "PLAYER|"@ + b,
{
    let pre = "PLAYER|"@;
    assert((pre + b).take(pre.len() as int) =~= pre);
    assert((pre + b).skip(pre.len() as int) =~= b);
}

/// Law: a packet from loopback never overwrites a peer's real port: a peer
/// known on a port other than my own keeps it.
pub proof fn lemma_loopback_learning_is_sticky(
    eps: Map<Ip, u16>,
    peers: Seq<Ip>,
    from: Ip,
    remote: u16,
    my_port: u16,
    k: Ip,
)
    requires
        from.loopback(),
        eps.dom().contains(k),
        eps[k] != my_port,
        k != localhost(),
    ensures
        learned_endpoints(eps, peers, from, remote, my_port).dom().contains(k),
        learned_endpoints(eps, peers, from, remote, my_port)[k] == eps[k],
{
}

/// Law: after learning, no endpoint points at my own data port and 127.0.0.1
/// is not an endpoint.
pub proof fn lemma_learning_never_maps_self(
    eps: Map<Ip, u16>,
    peers: Seq<Ip>,
    from: Ip,
    remote: u16,
    my_port: u16,
)
    ensures
        !learned_endpoints(eps, peers, from, remote, my_port).dom().contains(localhost()),
        forall|k: Ip| #[trigger]
            learned_endpoints(eps, peers, from, remote, my_port).dom().contains(k)
                ==> learned_endpoints(eps, peers, from, remote, my_port)[k] != my_port,
{
}

proof fn lemma_concat_contains(a: Seq<SockAddr>, b: Seq<SockAddr>, x: SockAddr)
    requires
        a.contains(x) || b.contains(x),
    ensures
        (a + b).contains(x),
{
    if a.contains(x) {
        let i = choose|i: int| 0 <= i < a.len() && a[i] == x;
        assert((a + b)[i] == x);
    } else {
        let i = choose|i: int| 0 <= i < b.len() && b[i] == x;
        assert((a + b)[a.len() + i] == x);
    }
}

proof fn lemma_peer_dests_discovery(eps: Map<Ip, u16>, ip: Ip, my_port: u16, dport: u16)
    requires
        !ip.loopback(),
        dport != 0,
        dport != my_port,
    ensures
        peer_dests(eps, ip, my_port, dport).contains(SockAddr { ip: ip, port: dport }),
        peer_dests(eps, ip, my_port, dport).contains(SockAddr { ip: localhost(), port: dport }),
{
    let d = dest_addrs_spec(ip, dport, my_port);
    assert(d[0] == SockAddr { ip: ip, port: dport });
    assert(d[1] == SockAddr { ip: localhost(), port: dport });
    lemma_concat_contains(dest_addrs_spec(ip, data_port(eps, ip), my_port), d, SockAddr { ip: ip, port: dport });
    lemma_concat_contains(
        dest_addrs_spec(ip, data_port(eps, ip), my_port),
        d,
        SockAddr { ip: localhost(), port: dport },
    );
}

/// Law: every real address given to `fgl_link_send` is sent the packet on the
/// discovery port, at the address and on 127.0.0.1, whether or not a data port
/// is known for it (unless the discovery port is my own).
pub proof fn lemma_send_reaches_discovery(
    ips: Seq<Option<Ip>>,
    eps: Map<Ip, u16>,
    my_port: u16,
    dport: u16,
    k: int,
)
    requires
        0 <= k < ips.len(),
        ips[k] is Some,
        !ips[k]->0.loopback(),
        dport != 0,
        dport != my_port,
    ensures
        send_dests(ips, eps, my_port, dport).contains(SockAddr { ip: ips[k]->0, port: dport }),
        send_dests(ips, eps, my_port, dport).contains(SockAddr { ip: localhost(), port: dport }),
    decreases ips.len(),
{
    let ip = ips[k]->0;
    let rest = send_dests(ips.drop_last(), eps, my_port, dport);
    let tail = match ips.last() {
        Some(x) => peer_dests(eps, x, my_port, dport),
        None => Seq::empty(),
    };
    if k == ips.len() - 1 {
        lemma_peer_dests_discovery(eps, ip, my_port, dport);
        lemma_concat_contains(rest, tail, SockAddr { ip: ip, port: dport });
        lemma_concat_contains(rest, tail, SockAddr { ip: localhost(), port: dport });
    } else {
        assert(ips.drop_last()[k] == ips[k]);
        lemma_send_reaches_discovery(ips.drop_last(), eps, my_port, dport, k);
        lemma_concat_contains(rest, tail, SockAddr { ip: ip, port: dport });
        lemma_concat_contains(rest, tail, SockAddr { ip: localhost(), port: dport });
    }
}

/// Law: every peer gets each relayed player packet on the discovery port, at
/// its address and on 127.0.0.1, whether or not a data port is known for it
/// (unless the discovery port is my own).
pub proof fn lemma_relay_reaches_discovery(
    peers: Seq<Ip>,
    eps: Map<Ip, u16>,
    my_port: u16,
    dport: u16,
    k: int,
)
    requires
        0 <= k < peers.len(),
        !peers[k].loopback(),
        dport != 0,
        dport != my_port,
    ensures
        relay_dests(peers, eps, my_port, dport).contains(SockAddr { ip: peers[k], port: dport }),
        relay_dests(peers, eps, my_port, dport).contains(SockAddr { ip: localhost(), port: dport }),
    decreases peers.len(),
{
    let ip = peers[k];
    let rest = relay_dests(peers.drop_last(), eps, my_port, dport);
    let tail = peer_dests(eps, peers.last(), my_port, dport);
    if k == peers.len() - 1 {
        lemma_peer_dests_discovery(eps, ip, my_port, dport);
    } else {
        assert(peers.drop_last()[k] == peers[k]);
        lemma_relay_reaches_discovery(peers.drop_last(), eps, my_port, dport, k);
    }
    lemma_concat_contains(rest, tail, SockAddr { ip: ip, port: dport });
    lemma_concat_contains(rest, tail, SockAddr { ip: localhost(), port: dport });
}

/// Law: a packet from a real address teaches its port: afterwards the address
/// is known on that port (unless it is my own data port, which is refused).
pub proof fn lemma_real_source_is_learned(
    eps: Map<Ip, u16>,
    peers: Seq<Ip>,
    from: Ip,
    remote: u16,
    my_port: u16,
)
    requires
        !from.loopback(),
        remote != my_port,
    ensures
        learned_endpoints(eps, peers, from, remote, my_port).dom().contains(from),
        learned_endpoints(eps, peers, from, remote, my_port)[from] == remote,
{
    assert(from != localhost());
}

/// Law: a peer known on a port other than mine gets each relayed or sent packet
/// there first: at its address, then on 127.0.0.1.
pub proof fn lemma_known_peer_gets_data(eps: Map<Ip, u16>, ip: Ip, port: u16, my_port: u16, dport: u16)
    requires
        !ip.loopback(),
        port != 0,
        port != my_port,
    ensures
        peer_dests(eps.insert(ip, port), ip, my_port, dport).take(2) == seq![
            SockAddr { ip: ip, port: port },
            SockAddr { ip: localhost(), port: port },
        ],
{
    let m = eps.insert(ip, port);
    assert(data_port(m, ip) == port);
    assert(peer_dests(m, ip, my_port, dport).take(2) =~= seq![
        SockAddr { ip: ip, port: port },
        SockAddr { ip: localhost(), port: port },
    ]);
}

impl LinkState {
    /// Law: a packet this launcher relays or sends (its data port as reply
    /// port, its pseudo as sender) is, when it comes back, its own echo.
    pub proof fn lemma_own_packets_echo(&self)
        requires
            self.port_spec() != 0,
        ensures
            self.is_own_packet(self.port_spec(), self.pseudo()),
    {
    }

    pub closed spec fn port_spec(&self) -> u16 {
        self.port
    }

    pub closed spec fn peers(&self) -> Seq<Ip> {
        self.peer_ips@
    }

    pub closed spec fn endpoints_map(&self) -> Map<Ip, u16> {
        self.endpoints@
    }

    pub closed spec fn pseudo(&self) -> Seq<char> {
        self.my_pseudo@
    }

    pub closed spec fn discovery_bound_spec(&self) -> bool {
        self.discovery_bound
    }

    pub closed spec fn last_bootstrap_spec(&self) -> Option<u128> {
        self.last_bootstrap
    }

    pub closed spec fn endpoints_wf(&self) -> bool {
        self.endpoints.wf()
    }

    /// The invariant every operation keeps: peers are real addresses, each once;
    /// learned endpoints are real addresses with a non-zero port.
    pub open spec fn wf(&self) -> bool {
        &&& self.endpoints_wf()
        &&& peers_ok(self.peers())
        &&& endpoints_ok(self.endpoints_map())
    }

    /// Port, pseudo and bootstrap bookkeeping are those of `other`.
    pub open spec fn same_settings(&self, other: &Self) -> bool {
        &&& self.port_spec() == other.port_spec()
        &&& self.pseudo() == other.pseudo()
        &&& self.discovery_bound_spec() == other.discovery_bound_spec()
        &&& self.last_bootstrap_spec() == other.last_bootstrap_spec()
    }

    pub fn new() -> (r: Self)
        ensures
            r.wf(),
            r.port_spec() == 0,
            r.peers() == Seq::<Ip>::empty(),
            r.endpoints_map() == Map::<Ip, u16>::empty(),
            r.pseudo() == Seq::<char>::empty(),
            !r.discovery_bound_spec(),
            r.last_bootstrap_spec() is None,
    {
        LinkState {
            port: 0,
            peer_ips: Vec::new(),
            endpoints: Endpoints::new(),
            my_pseudo: String::new(),
            discovery_bound: false,
            last_bootstrap: None,
        }
    }

    pub fn port(&self) -> (r: u16)
        ensures
            r == self.port_spec(),
    {
        self.port
    }

    /// Records the data port the link listens on.
    pub fn set_port(&mut self, port: u16)
        requires
            old(self).wf(),
        ensures
            final(self).wf(),
            final(self).port_spec() == port,
            final(self).peers() == old(self).peers(),
            final(self).endpoints_map() == old(self).endpoints_map(),
            final(self).pseudo() == old(self).pseudo(),
            final(self).discovery_bound_spec() == old(self).discovery_bound_spec(),
            final(self).last_bootstrap_spec() == old(self).last_bootstrap_spec(),
    {
        self.port = port;
    }

    /// Records whether the discovery port could be bound.
    pub fn set_discovery_bound(&mut self, bound: bool)
        requires
            old(self).wf(),
        ensures
            final(self).wf(),
            final(self).discovery_bound_spec() == bound,
            final(self).port_spec() == old(self).port_spec(),
            final(self).peers() == old(self).peers(),
            final(self).endpoints_map() == old(self).endpoints_map(),
            final(self).pseudo() == old(self).pseudo(),
            final(self).last_bootstrap_spec() == old(self).last_bootstrap_spec(),
    {
        self.discovery_bound = bound;
    }

    /// `fgl_link_get_port`: the data port, or the error when not started.
    pub fn get_port(&self) -> (r: Result<u16, String>)
        ensures
            self.port_spec() == 0 ==> (r matches Err(e) && e@ == "link not started"@),
            self.port_spec() != 0 ==> r == Ok::<u16, String>(self.port_spec()),
    {
        if self.port == 0 {
            Err(owned("link not started"))
        } else {
            Ok(self.port)
        }
    }

    /// `fgl_link_set_pseudo`: the pseudo, trimmed.
    pub fn set_pseudo(&mut self, pseudo: &str)
        requires
            old(self).wf(),
        ensures
            final(self).wf(),
            final(self).pseudo() == trim_spec(pseudo@),
            final(self).port_spec() == old(self).port_spec(),
            final(self).peers() == old(self).peers(),
            final(self).endpoints_map() == old(self).endpoints_map(),
            final(self).discovery_bound_spec() == old(self).discovery_bound_spec(),
            final(self).last_bootstrap_spec() == old(self).last_bootstrap_spec(),
    {
        let v = chars_of(pseudo);
        self.my_pseudo = string_of(&trim(&v));
    }

    pub fn pseudo_string(&self) -> (r: String)
        ensures
            r@ == self.pseudo(),
    {
        self.my_pseudo.clone()
    }

    /// The known peers, in the order they were added.
    pub fn peer_list(&self) -> (r: Vec<Ip>)
        ensures
            r@ == self.peers(),
    {
        let r = copy_range(&self.peer_ips, 0, self.peer_ips.len());
        assert(r@ =~= self.peer_ips@);
        r
    }

    /// The learned (peer, port) pairs.
    pub fn endpoint_pairs(&self) -> (r: Vec<(Ip, u16)>)
        requires
            self.wf(),
        ensures
            forall|i: int|
                0 <= i < r.len() ==> self.endpoints_map().dom().contains(#[trigger] r@[i].0)
                    && self.endpoints_map()[r@[i].0] == r@[i].1,
            forall|ip: Ip| #[trigger]
                self.endpoints_map().dom().contains(ip) ==> exists|i: int|
                    0 <= i < r.len() && r@[i].0 == ip,
            r.len() == self.endpoints_map().len(),
    {
        self.endpoints.pairs()
    }

    fn contains_peer(&self, ip: Ip) -> (r: bool)
        ensures
            r == self.peers().contains(ip),
    {
        let mut i: usize = 0;
        while i < self.peer_ips.len()
            invariant
                i <= self.peer_ips@.len(),
                forall|j: int| 0 <= j < i ==> self.peer_ips@[j] != ip,
            decreases self.peer_ips@.len() - i,
        {
            if self.peer_ips[i] == ip {
                proof {
                    assert(self.peer_ips@[i as int] == ip);
                }
                return true;
            }
            i += 1;
        }
        false
    }

    /// Adds a real address to the peers, once.
    fn add_peer(&mut self, ip: Ip)
        requires
            old(self).wf(),
        ensures
            final(self).wf(),
            final(self).peers() == peers_after(old(self).peers(), ip),
            final(self).endpoints_map() == old(self).endpoints_map(),
            final(self).same_settings(old(self)),
    {
        if !ip.is_loopback() && !self.contains_peer(ip) {
            self.peer_ips.push(ip);
            proof {
                assert forall|i: int, j: int|
                    0 <= i < self.peer_ips@.len() && 0 <= j < self.peer_ips@.len() && i != j implies self.peer_ips@[i]
                    != self.peer_ips@[j] by {
                    if i < self.peer_ips@.len() - 1 && j < self.peer_ips@.len() - 1 {
                        assert(old(self).peers().no_duplicates());
                    } else if i == self.peer_ips@.len() - 1 {
                        assert(!old(self).peers().contains(ip));
                        assert(old(self).peers()[j] == self.peer_ips@[j]);
                    } else {
                        assert(!old(self).peers().contains(ip));
                        assert(old(self).peers()[i] == self.peer_ips@[i]);
                    }
                }
            }
        }
    }

    /// `fgl_link_set_peers`: each parsed real address joins the peers, once;
    /// unparsable (`None`) and loopback entries are skipped.
    pub fn set_peers(&mut self, ips: &Vec<Option<Ip>>)
        requires
            old(self).wf(),
        ensures
            final(self).wf(),
            final(self).peers() == peers_with(old(self).peers(), ips@),
            final(self).endpoints_map() == old(self).endpoints_map(),
            final(self).same_settings(old(self)),
    {
        let ghost start = *self;
        let mut k: usize = 0;
        proof {
            assert(ips@.take(0) =~= Seq::<Option<Ip>>::empty());
        }
        while k < ips.len()
            invariant
                k <= ips@.len(),
                self.wf(),
                self.peers() == peers_with(start.peers(), ips@.take(k as int)),
                self.endpoints_map() == start.endpoints_map(),
                self.same_settings(&start),
            decreases ips@.len() - k,
        {
            proof {
                assert(ips@.take(k + 1).drop_last() =~= ips@.take(k as int));
                assert(ips@.take(k + 1).last() == ips@[k as int]);
            }
            match ips[k] {
                Some(ip) => self.add_peer(ip),
                None => {},
            }
            k += 1;
        }
        proof {
            assert(ips@.take(ips@.len() as int) =~= ips@);
        }
    }

    /// `fgl_link_remember`: records `port` for a real peer address, unless the
    /// port is 0 or my own data port (then nothing changes).
    pub fn remember(&mut self, ip: Option<Ip>, port: u16)
        requires
            old(self).wf(),
        ensures
            final(self).wf(),
            final(self).same_settings(old(self)),
            (port == 0 || port == old(self).port_spec() || ip is None || ip->0.loopback()) ==> {
                &&& final(self).peers() == old(self).peers()
                &&& final(self).endpoints_map() == old(self).endpoints_map()
            },
            !(port == 0 || port == old(self).port_spec() || ip is None || ip->0.loopback()) ==> {
                &&& final(self).endpoints_map() == old(self).endpoints_map().insert(ip->0, port)
                &&& final(self).peers() == peers_after(old(self).peers(), ip->0)
            },
    {
        if port == 0 || port == self.port {
            return;
        }
        match ip {
            None => {},
            Some(ip) => {
                if !ip.is_loopback() {
                    self.endpoints.insert(ip, port);
                    self.add_peer(ip);
                }
            },
        }
    }

    /// Learns that `from_ip` answers on data port `remote_data`
    /// (`learn_endpoint`). Port 0 and my own port are refused and change nothing.
    pub fn learn_endpoint(&mut self, from_ip: Ip, remote_data: u16, my_port: u16) -> (learned: bool)
        requires
            old(self).wf(),
        ensures
            final(self).wf(),
            final(self).same_settings(old(self)),
            (remote_data == 0 || remote_data == my_port) ==> {
                &&& !learned
                &&& final(self).peers() == old(self).peers()
                &&& final(self).endpoints_map() == old(self).endpoints_map()
            },
            !(remote_data == 0 || remote_data == my_port) ==> {
                &&& learned == learn_reports(
                    old(self).endpoints_map(),
                    old(self).peers(),
                    from_ip,
                    remote_data,
                    my_port,
                )
                &&& final(self).endpoints_map() == learned_endpoints(
                    old(self).endpoints_map(),
                    old(self).peers(),
                    from_ip,
                    remote_data,
                    my_port,
                )
                &&& final(self).peers() == peers_after(old(self).peers(), from_ip)
                &&& !final(self).endpoints_map().dom().contains(localhost())
                &&& forall|k: Ip| #[trigger]
                    final(self).endpoints_map().dom().contains(k) ==> final(self).endpoints_map()[k]
                        != my_port
            },
    {
        if remote_data == 0 || remote_data == my_port {
            return false;
        }
        let ghost eps0 = self.endpoints@;
        let ghost peers0 = self.peer_ips@;
        let ghost s0 = *self;
        let mut learned = false;
        if !from_ip.is_loopback() {
            match self.endpoints.get(from_ip) {
                Some(p) => {
                    if p != remote_data {
                        self.endpoints.insert(from_ip, remote_data);
                        learned = true;
                    } else {
                        proof {
                            assert(eps0.insert(from_ip, remote_data) =~= eps0);
                        }
                    }
                },
                None => {
                    self.endpoints.insert(from_ip, remote_data);
                    learned = true;
                },
            }
        } else {
            let mut i: usize = 0;
            proof {
                assert(fill_map(eps0, peers0.take(0), remote_data, my_port) =~= eps0);
            }
            while i < self.peer_ips.len()
                invariant
                    i <= self.peer_ips@.len(),
                    self.peer_ips@ == peers0,
                    self.same_settings(&s0),
                    self.endpoints.wf(),
                    self.endpoints@ == fill_map(eps0, peers0.take(i as int), remote_data, my_port),
                    learned == exists|k: Ip| fills(eps0, peers0.take(i as int), k, my_port),
                    remote_data != my_port,
                    remote_data != 0,
                decreases self.peer_ips@.len() - i,
            {
                let peer = self.peer_ips[i];
                let ghost before = self.endpoints@;
                let ghost t0 = peers0.take(i as int);
                let ghost t1 = peers0.take(i + 1);
                proof {
                    assert(t1 =~= t0.push(peer));
                    assert forall|k: Ip| k != peer implies #[trigger] fills(eps0, t1, k, my_port)
                        == fills(eps0, t0, k, my_port) by {
                        if t1.contains(k) {
                            let j = choose|j: int| 0 <= j < t1.len() && t1[j] == k;
                            assert(t0[j] == k);
                        }
                        if t0.contains(k) {
                            let j = choose|j: int| 0 <= j < t0.len() && t0[j] == k;
                            assert(t1[j] == k);
                        }
                    }
                    assert(t1.contains(peer)) by {
                        assert(t1[i as int] == peer);
                    }
                }
                if !peer.is_loopback() {
                    match self.endpoints.get(peer) {
                        Some(p) => {
                            if p == my_port {
                                self.endpoints.insert(peer, remote_data);
                                learned = true;
                                proof {
                                    assert(fills(eps0, t1, peer, my_port));
                                    assert(self.endpoints@ =~= fill_map(eps0, t1, remote_data, my_port));
                                }
                            } else {
                                proof {
                                    if fills(eps0, t0, peer, my_port) {
                                        assert(fills(eps0, t1, peer, my_port));
                                    } else {
                                        assert(!fills(eps0, t1, peer, my_port));
                                    }
                                    assert(self.endpoints@ =~= fill_map(eps0, t1, remote_data, my_port));
                                    if learned {
                                        let k = choose|k: Ip| fills(eps0, t0, k, my_port);
                                        assert(fills(eps0, t1, k, my_port)) by {
                                            let j = choose|j: int| 0 <= j < t0.len() && t0[j] == k;
                                            assert(t1[j] == k);
                                        }
                                    }
                                    if exists|k: Ip| fills(eps0, t1, k, my_port) {
                                        let k = choose|k: Ip| fills(eps0, t1, k, my_port);
                                        if k != peer {
                                            assert(fills(eps0, t0, k, my_port));
                                        }
                                    }
                                }
                            }
                        },
                        None => {
                            self.endpoints.insert(peer, remote_data);
                            learned = true;
                            proof {
                                assert(fills(eps0, t1, peer, my_port));
                                assert(self.endpoints@ =~= fill_map(eps0, t1, remote_data, my_port));
                            }
                        },
                    }
                } else {
                    proof {
                        assert(!fills(eps0, t1, peer, my_port));
                        assert(self.endpoints@ =~= fill_map(eps0, t1, remote_data, my_port));
                        if learned {
                            let k = choose|k: Ip| fills(eps0, t0, k, my_port);
                            assert(fills(eps0, t1, k, my_port)) by {
                                let j = choose|j: int| 0 <= j < t0.len() && t0[j] == k;
                                assert(t1[j] == k);
                            }
                        }
                        if exists|k: Ip| fills(eps0, t1, k, my_port) {
                            let k = choose|k: Ip| fills(eps0, t1, k, my_port);
                            assert(fills(eps0, t0, k, my_port));
                        }
                    }
                }
                i += 1;
            }
            proof {
                assert(peers0.take(peers0.len() as int) =~= peers0);
            }
        }
        self.endpoints.remove_port(my_port);
        self.endpoints.remove(localhost_ip());
        if !from_ip.is_loopback() {
            self.add_peer(from_ip);
        }
        proof {
            assert forall|k: Ip| #[trigger] self.endpoints@.dom().contains(k) implies !k.loopback()
                && self.endpoints@[k] != 0 by {
                if !from_ip.loopback() {
                    if k != from_ip {
                        assert(eps0.dom().contains(k));
                    }
                } else {
                    if !fills(eps0, peers0, k, my_port) {
                        assert(eps0.dom().contains(k));
                    } else {
                        let j = choose|j: int| 0 <= j < peers0.len() && peers0[j] == k;
                        assert(!peers0[j].loopback());
                    }
                }
            }
        }
        learned
    }
    /// Whether a packet comes from this very launcher: it answers on my data
    /// port, or carries my pseudo (ASCII case ignored).
    pub open spec fn is_own_packet(&self, reply_port: u16, from: Seq<char>) -> bool {
        ||| reply_port > 0 && reply_port == self.port_spec()
        ||| self.pseudo().len() > 0 && from.len() > 0 && eq_ignore_ascii_case_spec(
            encode_utf8(from),
            encode_utf8(self.pseudo()),
        )
    }

    /// What the reader does with a link packet from `from`: drops my own
    /// packets untouched; otherwise learns the sender's data port (when it gives
    /// one) and, for a non-empty player payload, hands its line to the game.
    pub fn receive(&mut self, pkt: &LinkPacket, from: SockAddr) -> (r: LinkReceive)
        requires
            old(self).wf(),
        ensures
            final(self).wf(),
            final(self).same_settings(old(self)),
            old(self).is_own_packet(pkt.reply_port, pkt.from@) ==> {
                &&& r is SelfEcho
                &&& final(self).peers() == old(self).peers()
                &&& final(self).endpoints_map() == old(self).endpoints_map()
            },
            !old(self).is_own_packet(pkt.reply_port, pkt.from@) ==> match r {
                LinkReceive::SelfEcho => false,
                LinkReceive::Accepted { learned, to_game } => {
                    &&& pkt.reply_port > 0 ==> {
                        &&& learned == learn_reports(
                            old(self).endpoints_map(),
                            old(self).peers(),
                            from.ip,
                            pkt.reply_port,
                            old(self).port_spec(),
                        )
                        &&& final(self).endpoints_map() == learned_endpoints(
                            old(self).endpoints_map(),
                            old(self).peers(),
                            from.ip,
                            pkt.reply_port,
                            old(self).port_spec(),
                        )
                        &&& final(self).peers() == peers_after(old(self).peers(), from.ip)
                    }
                    &&& pkt.reply_port == 0 ==> {
                        &&& !learned
                        &&& final(self).endpoints_map() == old(self).endpoints_map()
                        &&& final(self).peers() == old(self).peers()
                    }
                    &&& (pkt.kind@ == "player"@ && pkt.payload@.len() > 0) <==> to_game is Some
                    &&& to_game matches Some(line) ==> line@ == player_line(pkt.payload@)
                }
            },
    {
        let is_self_port = pkt.reply_port > 0 && pkt.reply_port == self.port;
        let is_self_name = !self.my_pseudo.as_str().is_empty() && !pkt.from.as_str().is_empty()
            && eq_ignore_ascii_case(pkt.from.as_str(), self.my_pseudo.as_str());
        if is_self_port || is_self_name {
            return LinkReceive::SelfEcho;
        }
        let mut learned = false;
        if pkt.reply_port > 0 {
            let my_port = self.port;
            learned = self.learn_endpoint(from.ip, pkt.reply_port, my_port);
        }
        let to_game = if same_text(pkt.kind.as_str(), "player") && !pkt.payload.as_str().is_empty() {
            Some(player_line_of(pkt.payload.as_str()))
        } else {
            None
        };
        LinkReceive::Accepted { learned, to_game }
    }

    /// Destinations of a packet for `peers`, computed peer by peer.
    fn peers_dests(&self, dport: u16) -> (r: Vec<SockAddr>)
        requires
            self.wf(),
        ensures
            r@ == relay_dests(self.peers(), self.endpoints_map(), self.port_spec(), dport),
            forall|i: int|
                0 <= i < r.len() ==> (#[trigger] r@[i]).port != self.port_spec() && r@[i].port != 0,
    {
        let my_port = self.port;
        let mut dests: Vec<SockAddr> = Vec::new();
        let mut i: usize = 0;
        proof {
            assert(self.peer_ips@.take(0) =~= Seq::<Ip>::empty());
        }
        while i < self.peer_ips.len()
            invariant
                self.wf(),
                my_port == self.port_spec(),
                i <= self.peer_ips@.len(),
                dests@ == relay_dests(self.peer_ips@.take(i as int), self.endpoints@, my_port, dport),
                forall|j: int|
                    0 <= j < dests.len() ==> (#[trigger] dests@[j]).port != my_port && dests@[j].port
                        != 0,
            decreases self.peer_ips@.len() - i,
        {
            let ip = self.peer_ips[i];
            let data = match self.endpoints.get(ip) {
                Some(p) => p,
                None => 0,
            };
            let a = dest_addrs(ip, data, my_port);
            let b = dest_addrs(ip, dport, my_port);
            let ghost before = dests@;
            dests = concat(&dests, &a);
            dests = concat(&dests, &b);
            proof {
                let t = self.peer_ips@.take(i + 1);
                assert(t.drop_last() =~= self.peer_ips@.take(i as int));
                assert(t.last() == ip);
                assert(data == data_port(self.endpoints@, ip));
                assert(dests@ =~= before + (a@ + b@));
                assert forall|j: int| 0 <= j < dests.len() implies (#[trigger] dests@[j]).port
                    != my_port && dests@[j].port != 0 by {
                    if j < before.len() {
                        assert(dests@[j] == before[j]);
                    } else if j < before.len() + a.len() {
                        assert(dests@[j] == a@[j - before.len()]);
                    } else {
                        assert(dests@[j] == b@[j - before.len() - a.len()]);
                    }
                }
            }
            i += 1;
        }
        proof {
            assert(self.peer_ips@.take(self.peer_ips@.len() as int) =~= self.peer_ips@);
        }
        dests
    }

    /// `relay_player`: the player packet for a line from the game and where it
    /// goes (each peer's learned data port and the discovery port); none before
    /// the link has a data port.
    pub fn relay_plan(&self, payload: &str, ts: u64) -> (r: Option<RelayPlan>)
        requires
            self.wf(),
        ensures
            self.port_spec() == 0 <==> r is None,
            r matches Some(plan) ==> {
                &&& plan.packet.v == 1
                &&& plan.packet.kind@ == "player"@
                &&& plan.packet.from@ == self.pseudo()
                &&& plan.packet.payload@ == without_prefix(payload@, "PLAYER|"@)
                &&& plan.packet.reply_port == self.port_spec()
                &&& plan.packet.ts == ts
                &&& plan.dests@ == relay_dests(
                    self.peers(),
                    self.endpoints_map(),
                    self.port_spec(),
                    discovery_port_spec("fangame".spec_bytes()),
                )
                &&& forall|i: int|
                    0 <= i < plan.dests.len() ==> (#[trigger] plan.dests@[i]).port
                        != self.port_spec() && plan.dests@[i].port != 0
            },
    {
        if self.port == 0 {
            return None;
        }
        let p = chars_of(payload);
        let prefix = chars_of("PLAYER|");
        let body = strip_prefix_or_keep(&p, &prefix);
        let packet = LinkPacket {
            v: 1,
            kind: owned("player"),
            from: self.my_pseudo.clone(),
            payload: string_of(&body),
            reply_port: self.port,
            ts: ts,
        };
        let dport = fangame_discovery_port();
        let dests = self.peers_dests(dport);
        Some(RelayPlan { packet, dests })
    }

    /// `fgl_link_send`: a packet of the given kind for the given addresses
    /// (unparsable ones as `None`), each to its learned data port and the
    /// discovery port; the error before the link has a data port.
    pub fn send_plan(&self, kind: &str, payload: &str, ips: &Vec<Option<Ip>>, ts: u64) -> (r: Result<
        RelayPlan,
        String,
    >)
        requires
            self.wf(),
        ensures
            self.port_spec() == 0 ==> (r matches Err(e) && e@ == "link not started"@),
            self.port_spec() != 0 ==> (r matches Ok(plan) && {
                &&& plan.packet.v == 1
                &&& plan.packet.kind@ == kind@
                &&& plan.packet.from@ == self.pseudo()
                &&& plan.packet.payload@ == payload@
                &&& plan.packet.reply_port == self.port_spec()
                &&& plan.packet.ts == ts
                &&& plan.dests@ == send_dests(
                    ips@,
                    self.endpoints_map(),
                    self.port_spec(),
                    discovery_port_spec("fangame".spec_bytes()),
                )
                &&& forall|i: int|
                    0 <= i < plan.dests.len() ==> (#[trigger] plan.dests@[i]).port
                        != self.port_spec() && plan.dests@[i].port != 0
            }),
    {
        let my_port = self.port;
        if my_port == 0 {
            return Err(owned("link not started"));
        }
        let dport = fangame_discovery_port();
        let mut dests: Vec<SockAddr> = Vec::new();
        let mut i: usize = 0;
        proof {
            assert(ips@.take(0) =~= Seq::<Option<Ip>>::empty());
        }
        while i < ips.len()
            invariant
                self.wf(),
                my_port == self.port_spec(),
                i <= ips@.len(),
                dests@ == send_dests(ips@.take(i as int), self.endpoints@, my_port, dport),
                forall|j: int|
                    0 <= j < dests.len() ==> (#[trigger] dests@[j]).port != my_port && dests@[j].port
                        != 0,
            decreases ips@.len() - i,
        {
            let ghost before = dests@;
            proof {
                let t = ips@.take(i + 1);
                assert(t.drop_last() =~= ips@.take(i as int));
                assert(t.last() == ips@[i as int]);
            }
            match ips[i] {
                Some(ip) => {
                    let data = match self.endpoints.get(ip) {
                        Some(p) => p,
                        None => 0,
                    };
                    let a = dest_addrs(ip, data, my_port);
                    let b = dest_addrs(ip, dport, my_port);
                    dests = concat(&dests, &a);
                    dests = concat(&dests, &b);
                    proof {
                        assert(data == data_port(self.endpoints@, ip));
                        assert(dests@ =~= before + (a@ + b@));
                        assert forall|j: int| 0 <= j < dests.len() implies (
                        #[trigger] dests@[j]).port != my_port && dests@[j].port != 0 by {
                            if j < before.len() {
                                assert(dests@[j] == before[j]);
                            } else if j < before.len() + a.len() {
                                assert(dests@[j] == a@[j - before.len()]);
                            } else {
                                assert(dests@[j] == b@[j - before.len() - a.len()]);
                            }
                        }
                    }
                },
                None => {
                    proof {
                        assert(dests@ =~= before + Seq::<SockAddr>::empty());
                    }
                },
            }
            i += 1;
        }
        proof {
            assert(ips@.take(ips@.len() as int) =~= ips@);
        }
        let packet = LinkPacket {
            v: 1,
            kind: owned(kind),
            from: self.my_pseudo.clone(),
            payload: owned(payload),
            reply_port: my_port,
            ts: ts,
        };
        Ok(RelayPlan { packet, dests })
    }

    /// The bootstrap announce is due when none was sent in the last two seconds
    /// (`now` and the recorded time in nanoseconds of a monotonic clock); a due
    /// announce records `now`.
    pub fn bootstrap_gate(&mut self, now: u128) -> (due: bool)
        requires
            old(self).wf(),
        ensures
            final(self).wf(),
            due == match old(self).last_bootstrap_spec() {
                None => true,
                Some(t) => now >= t && now - t >= 2_000_000_000,
            },
            due ==> final(self).last_bootstrap_spec() == Some(now),
            !due ==> final(self).last_bootstrap_spec() == old(self).last_bootstrap_spec(),
            final(self).port_spec() == old(self).port_spec(),
            final(self).peers() == old(self).peers(),
            final(self).endpoints_map() == old(self).endpoints_map(),
            final(self).pseudo() == old(self).pseudo(),
            final(self).discovery_bound_spec() == old(self).discovery_bound_spec(),
    {
        match self.last_bootstrap {
            Some(t) => {
                if !(now >= t && now - t >= 2_000_000_000) {
                    return false;
                }
            },
            None => {},
        }
        self.last_bootstrap = Some(now);
        true
    }

    /// The announce packet, with my pseudo and data port.
    pub fn announce_packet(&self, ts: u64) -> (r: LinkPacket)
        ensures
            r.v == 1,
            r.kind@ == "announce"@,
            r.from@ == self.pseudo(),
            r.payload@ == Seq::<char>::empty(),
            r.reply_port == self.port_spec(),
            r.ts == ts,
    {
        LinkPacket {
            v: 1,
            kind: owned("announce"),
            from: self.my_pseudo.clone(),
            payload: String::new(),
            reply_port: self.port,
            ts: ts,
        }
    }

    /// Where the bootstrap announce goes: every peer's discovery and data port,
    /// then each other local data port on 127.0.0.1 and on every peer; none
    /// before the link has a data port.
    pub fn bootstrap_targets(&self, local_ports: &Vec<u16>) -> (r: Option<Vec<SockAddr>>)
        requires
            self.wf(),
        ensures
            self.port_spec() == 0 <==> r is None,
            r matches Some(d) ==> {
                &&& d@ == announce_dests(
                    self.peers(),
                    self.endpoints_map(),
                    self.port_spec(),
                    discovery_port_spec("fangame".spec_bytes()),
                ) + local_dests(local_ports@, self.peers(), self.port_spec())
                &&& forall|i: int| 0 <= i < d.len() ==> (#[trigger] d@[i]).port != self.port_spec()
                &&& (forall|i: int| 0 <= i < local_ports.len() ==> #[trigger] local_ports@[i] != 0)
                    ==> forall|i: int| 0 <= i < d.len() ==> (#[trigger] d@[i]).port != 0
            },
    {
        let my_port = self.port;
        if my_port == 0 {
            return None;
        }
        let dport = fangame_discovery_port();
        let mut dests: Vec<SockAddr> = Vec::new();
        let mut i: usize = 0;
        proof {
            assert(self.peer_ips@.take(0) =~= Seq::<Ip>::empty());
        }
        while i < self.peer_ips.len()
            invariant
                self.wf(),
                my_port == self.port_spec(),
                my_port != 0,
                i <= self.peer_ips@.len(),
                dests@ == announce_dests(self.peer_ips@.take(i as int), self.endpoints@, my_port, dport),
                forall|j: int|
                    0 <= j < dests.len() ==> (#[trigger] dests@[j]).port != my_port && dests@[j].port
                        != 0,
            decreases self.peer_ips@.len() - i,
        {
            let ip = self.peer_ips[i];
            let data = match self.endpoints.get(ip) {
                Some(p) => p,
                None => 0,
            };
            let a = dest_addrs(ip, dport, my_port);
            let b = dest_addrs(ip, data, my_port);
            let ghost before = dests@;
            dests = concat(&dests, &a);
            dests = concat(&dests, &b);
            proof {
                let t = self.peer_ips@.take(i + 1);
                assert(t.drop_last() =~= self.peer_ips@.take(i as int));
                assert(t.last() == ip);
                assert(data == data_port(self.endpoints@, ip));
                assert(dests@ =~= before + a@ + b@);
                assert forall|j: int| 0 <= j < dests.len() implies (#[trigger] dests@[j]).port
                    != my_port && dests@[j].port != 0 by {
                    if j < before.len() {
                        assert(dests@[j] == before[j]);
                    } else if j < before.len() + a.len() {
                        assert(dests@[j] == a@[j - before.len()]);
                    } else {
                        assert(dests@[j] == b@[j - before.len() - a.len()]);
                    }
                }
            }
            i += 1;
        }
        proof {
            assert(self.peer_ips@.take(self.peer_ips@.len() as int) =~= self.peer_ips@);
        }
        let ghost head = dests@;
        let ghost peers = self.peer_ips@;
        let mut k: usize = 0;
        proof {
            assert(local_ports@.take(0) =~= Seq::<u16>::empty());
            assert(dests@ =~= head + local_dests(local_ports@.take(0), peers, my_port));
        }
        while k < local_ports.len()
            invariant
                self.wf(),
                peers == self.peer_ips@,
                my_port == self.port_spec(),
                k <= local_ports@.len(),
                dests@ == head + local_dests(local_ports@.take(k as int), peers, my_port),
                forall|j: int| 0 <= j < dests.len() ==> (#[trigger] dests@[j]).port != my_port,
                (forall|i: int| 0 <= i < local_ports.len() ==> #[trigger] local_ports@[i] != 0)
                    ==> forall|j: int| 0 <= j < dests.len() ==> (#[trigger] dests@[j]).port != 0,
            decreases local_ports@.len() - k,
        {
            let p = local_ports[k];
            let ghost before = dests@;
            proof {
                let t = local_ports@.take(k + 1);
                assert(t.drop_last() =~= local_ports@.take(k as int));
                assert(t.last() == p);
            }
            if p != my_port {
                dests.push(SockAddr { ip: localhost_ip(), port: p });
                let mut m: usize = 0;
                while m < self.peer_ips.len()
                    invariant
                        peers == self.peer_ips@,
                        m <= peers.len(),
                        dests@ == before + seq![SockAddr { ip: localhost(), port: p }]
                            + peers.take(m as int).map_values(|ip: Ip| SockAddr { ip: ip, port: p }),
                    decreases peers.len() - m,
                {
                    dests.push(SockAddr { ip: self.peer_ips[m], port: p });
                    proof {
                        assert(peers.take(m + 1).map_values(|ip: Ip| SockAddr { ip: ip, port: p })
                            =~= peers.take(m as int).map_values(|ip: Ip| SockAddr { ip: ip, port: p }).push(
                            SockAddr { ip: peers[m as int], port: p },
                        ));
                    }
                    m += 1;
                }
                proof {
                    assert(peers.take(peers.len() as int) =~= peers);
                    assert(dests@ =~= head + local_dests(local_ports@.take(k + 1), peers, my_port));
                    assert forall|j: int| 0 <= j < dests.len() implies (#[trigger] dests@[j]).port
                        != my_port by {
                        if j < before.len() {
                            assert(dests@[j] == before[j]);
                        } else {
                            assert(dests@[j].port == p);
                        }
                    }
                    if forall|i: int| 0 <= i < local_ports.len() ==> #[trigger] local_ports@[i] != 0 {
                        assert(local_ports@[k as int] != 0);
                        assert forall|j: int| 0 <= j < dests.len() implies (#[trigger] dests@[j]).port
                            != 0 by {
                            if j < before.len() {
                                assert(dests@[j] == before[j]);
                            } else {
                                assert(dests@[j].port == p);
                            }
                        }
                    }
                }
            } else {
                proof {
                    assert(dests@ =~= head + local_dests(local_ports@.take(k + 1), peers, my_port));
                }
            }
            k += 1;
        }
        proof {
            assert(local_ports@.take(local_ports@.len() as int) =~= local_ports@);
        }
        Some(dests)
    }
}

/// The line for the game: the payload tagged `PLAYER|` unless it already is.
pub fn player_line_of(payload: &str) -> (r: String)
    ensures
        r@ == player_line(payload@),
{
    let p = chars_of(payload);
    let prefix = chars_of("PLAYER|");
    if starts_with(&p, &prefix) {
        string_of(&p)
    } else {
        string_of(&concat(&prefix, &p))
    }
}

} // verus!
