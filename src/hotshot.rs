//! JSON-RPC adapter: transactions are random bytes, hex-encoded and sent in
//! one request per endpoint.

use crate::common::{RoundResults, TestrpcError};
use crate::config::{find_arg, lookup_arg, Arg, ArgValue};
use crate::discovery::views;
use crate::text::{append_decimal, decimal};
use vstd::prelude::*;
use vstd::string::StringExecFns;

verus! {

/// RPC port used when the arguments give none.
pub const DEFAULT_RPC_PORT: u16 = 5000;

/// Arguments of the JSON-RPC adapter.
#[derive(Debug, Clone)]
pub struct HotshotArgs {
    /// Address of the coordinator that lists the nodes.
    pub coordinator_url: String,
    /// RPC port of the nodes.
    pub rpc_port: u16,
}

impl HotshotArgs {
    /// Reads the arguments: `coordinator_url` must be a string; `rpc_port`,
    /// when a non-negative integer, is taken modulo 2^16, else the default.
    pub fn from_args(args: &Vec<Arg>) -> (r: Result<HotshotArgs, TestrpcError>)
        ensures
            lookup_arg(args@, "coordinator_url"@) matches Some(ArgValue::Str(u)) ==> (r matches Ok(a)
                && a.coordinator_url@ == u@ && a.rpc_port == match lookup_arg(args@, "rpc_port"@) {
                Some(ArgValue::Unsigned(p)) => p as u16,
                _ => DEFAULT_RPC_PORT,
            }),
            !(lookup_arg(args@, "coordinator_url"@) matches Some(ArgValue::Str(_))) ==> (r matches Err(
                TestrpcError::MissingArgs(m),
            ) && m@ == "coordinator_url"@),
    {
        let coordinator_url = match find_arg(args, "coordinator_url") {
            Some(ArgValue::Str(u)) => u.clone(),
            _ => {
                return Err(TestrpcError::MissingArgs(String::from_str("coordinator_url")));
            },
        };
        let rpc_port = match find_arg(args, "rpc_port") {
            Some(ArgValue::Unsigned(p)) => *p as u16,
            _ => DEFAULT_RPC_PORT,
        };
        Ok(HotshotArgs { coordinator_url, rpc_port })
    }
}

/// `http://<ip>:<port>`.
pub open spec fn rpc_url(ip: Seq<char>, port: u16) -> Seq<char> {
    "http://"@ + ip + ":"@ + decimal(port as nat)
}

/// `http://<coordinator>/libp2p-info`, where the coordinator lists its nodes.
pub open spec fn p2p_info_url(coordinator: Seq<char>) -> Seq<char> {
    "http://"@ + coordinator + "/libp2p-info"@
}

/// Address of the coordinator's node listing.
pub fn p2p_info_url_of(coordinator_url: &String) -> (r: String)
    ensures
        r@ == p2p_info_url(coordinator_url@),
{
    let mut s = String::from_str("http://");
    s.append(coordinator_url.as_str());
    s.append("/libp2p-info");
    s
}

/// Turns node addresses into RPC endpoints; an empty list is an error.
pub fn rpc_urls_from_ips(ips: &Vec<String>, rpc_port: u16) -> (r: Result<Vec<String>, TestrpcError>)
    ensures
        ips@.len() == 0 <==> r is Err,
        r is Err ==> (r matches Err(TestrpcError::LoadEndpointsError(m)) && m@
            == "No RPC endpoints found"@),
        r matches Ok(v) ==> v@.len() == ips@.len() && forall|k: int|
            0 <= k < v@.len() ==> #[trigger] v@[k]@ == rpc_url(ips@[k]@, rpc_port),
{
    if ips.len() == 0 {
        return Err(TestrpcError::LoadEndpointsError(String::from_str("No RPC endpoints found")));
    }
    let mut v: Vec<String> = Vec::new();
    let mut i: usize = 0;
    while i < ips.len()
        invariant
            i <= ips@.len(),
            v@.len() == i,
            forall|k: int| 0 <= k < i ==> #[trigger] v@[k]@ == rpc_url(ips@[k]@, rpc_port),
        decreases ips@.len() - i,
    {
        let mut u = String::from_str("http://");
        u.append(ips[i].as_str());
        u.append(":");
        append_decimal(&mut u, rpc_port as u64);
        assert(u@ =~= rpc_url(ips@[i as int]@, rpc_port));
        v.push(u);
        i = i + 1;
    }
    Ok(v)
}

/// Lower-case hexadecimal digit of `d` (below 16).
pub open spec fn hex_digit(d: nat) -> char {
    if d < 10 {
        crate::text::digit_char(d)
    } else if d == 10 {
        'a'
    } else if d == 11 {
        'b'
    } else if d == 12 {
        'c'
    } else if d == 13 {
        'd'
    } else if d == 14 {
        'e'
    } else {
        'f'
    }
}

/// Lower-case hexadecimal form of a byte string: two digits per byte, high
/// nibble first.
pub open spec fn hex_of(b: Seq<u8>) -> Seq<char>
    decreases b.len(),
{
    if b.len() == 0 {
        Seq::empty()
    } else {
        hex_of(b.drop_last()) + seq![hex_digit((b.last() / 16) as nat), hex_digit((b.last() % 16) as nat)]
    }
}

proof fn lemma_hex_len(b: Seq<u8>)
    ensures
        hex_of(b).len() == 2 * b.len(),
    decreases b.len(),
{
    if b.len() > 0 {
        lemma_hex_len(b.drop_last());
    }
}

/// Relies on hex::encode: each byte becomes two lower-case hexadecimal
/// digits, high nibble first, in order.
#[verifier::external_body]
fn hex_encode(b: &Vec<u8>) -> (r: String)
    ensures
        r@ == hex_of(b@),
{
    hex::encode(b)
}

/// Relies on rand's Rng::fill with the thread-local generator (rand 0.9):
/// `len` bytes; nothing is assumed of their values.
#[verifier::external_body]
fn random_bytes(len: usize) -> (r: Vec<u8>)
    ensures
        r@.len() == len,
{
    let mut v = vec![0u8; len];
    rand::Rng::fill(&mut rand::rng(), &mut v[..]);
    v
}

/// Whether `s` is the hexadecimal form of some `n`-byte string.
pub open spec fn is_hex_tx(s: Seq<char>, n: nat) -> bool {
    exists|b: Seq<u8>| b.len() == n && s == hex_of(b)
}

/// Lines of a text split at each newline; a text without newline is one
/// line, and a trailing newline ends with an empty line.
pub open spec fn lines_of(s: Seq<char>) -> Seq<Seq<char>>
    decreases s.len(),
{
    if s.len() == 0 {
        seq![Seq::empty()]
    } else {
        let p = lines_of(s.drop_last());
        if s.last() == '\n' {
            p.push(Seq::empty())
        } else {
            p.update(p.len() - 1, p.last().push(s.last()))
        }
    }
}

/// Splits a text at each newline.
pub fn split_lines(text: &str) -> (r: Vec<String>)
    ensures
        views(r@) == lines_of(text@),
{
    let n = text.unicode_len();
    let mut lines: Vec<String> = Vec::new();
    let mut start: usize = 0;
    let mut i: usize = 0;
    assert(text@.take(0) =~= Seq::<char>::empty());
    assert(views(lines@).push(text@.subrange(0, 0)) =~= lines_of(text@.take(0)));
    while i < n
        invariant
            n == text@.len(),
            start <= i <= n,
            lines_of(text@.take(i as int)) == views(lines@).push(text@.subrange(start as int, i as int)),
        decreases n - i,
    {
        let c = text.get_char(i);
        let ghost prev = views(lines@);
        assert(text@.take(i + 1).drop_last() =~= text@.take(i as int));
        assert(text@.take(i + 1).last() == c);
        if c == '\n' {
            let line = String::from_str(text.substring_char(start, i));
            let ghost lv = line@;
            lines.push(line);
            assert(views(lines@) =~= prev.push(lv));
            assert(lines_of(text@.take(i + 1)) == lines_of(text@.take(i as int)).push(Seq::empty()));
            start = i + 1;
            assert(text@.subrange(start as int, i + 1) =~= Seq::<char>::empty());
            assert(views(lines@).push(text@.subrange(start as int, i + 1)) =~= lines_of(text@.take(i + 1)));
        } else {
            assert(text@.subrange(start as int, i + 1) =~= text@.subrange(start as int, i as int).push(c));
            assert(views(lines@).push(text@.subrange(start as int, i + 1)) =~= lines_of(text@.take(i + 1)));
        }
        i = i + 1;
    }
    assert(text@.take(n as int) =~= text@);
    let last = String::from_str(text.substring_char(start, n));
    lines.push(last);
    assert(views(lines@) =~= lines_of(text@));
    lines
}

/// For a line that parses as a multiaddress: its text form and the text
/// forms of its components, in order.
pub uninterp spec fn multiaddr_parts(line: Seq<char>) -> Option<(Seq<char>, Seq<Seq<char>>)>;

/// Relies on libp2p's `Multiaddr` (multiaddr 0.18): `FromStr` to parse a
/// line, `Display` for the address and for each protocol of `iter()`.
#[verifier::external_body]
fn parse_multiaddr(line: &str) -> (r: Result<(String, Vec<String>), String>)
    ensures
        r is Ok <==> multiaddr_parts(line@) is Some,
        r matches Ok(p) ==> multiaddr_parts(line@) == Some((p.0@, views(p.1@))),
{
    match line.parse::<libp2p::Multiaddr>() {
        Ok(a) => Ok((a.to_string(), a.iter().map(|p| p.to_string()).collect())),
        Err(e) => Err(e.to_string()),
    }
}

/// The host of a parsed address: its first component without the leading
/// `/ip4/` (five characters), or the whole address when it has fewer than
/// two components or a first component shorter than six characters.
pub open spec fn host_of(parts: (Seq<char>, Seq<Seq<char>>)) -> Seq<char> {
    if parts.1.len() < 2 {
        parts.0
    } else if parts.1[0].len() < 6 {
        parts.0
    } else {
        parts.1[0].subrange(5, parts.1[0].len() as int)
    }
}

/// Whether every line parses as a multiaddress.
pub open spec fn all_parse(lines: Seq<Seq<char>>) -> bool {
    forall|k: int| 0 <= k < lines.len() ==> (#[trigger] multiaddr_parts(lines[k])) is Some
}

/// The non-empty hosts of a sequence of lines that all parse, in order.
pub open spec fn hosts(lines: Seq<Seq<char>>) -> Seq<Seq<char>>
    decreases lines.len(),
{
    if lines.len() == 0 {
        Seq::empty()
    } else {
        let prev = hosts(lines.drop_last());
        let h = host_of(multiaddr_parts(lines.last())->Some_0);
        if h.len() == 0 {
            prev
        } else {
            prev.push(h)
        }
    }
}

/// The host of a parsed address, given its text form and the text forms of
/// its components.
pub fn host(text: String, comps: &Vec<String>) -> (r: String)
    ensures
        r@ == host_of((text@, views(comps@))),
{
    if comps.len() < 2 {
        return text;
    }
    let first = comps[0].as_str();
    let n = first.unicode_len();
    if n < 6 {
        return text;
    }
    String::from_str(first.substring_char(5, n))
}

/// Reads the nodes listed by the coordinator, one multiaddress per line,
/// and keeps the host of each; any line that does not parse fails the whole.
pub fn parse_endpoints(endpoints: &str) -> (r: Result<Vec<String>, TestrpcError>)
    ensures
        r is Ok <==> all_parse(lines_of(endpoints@)),
        r is Err ==> (r matches Err(TestrpcError::LoadEndpointsError(_))),
        r matches Ok(v) ==> views(v@) == hosts(lines_of(endpoints@)),
{
    let lines = split_lines(endpoints);
    let ghost ls = lines_of(endpoints@);
    let mut out: Vec<String> = Vec::new();
    let mut i: usize = 0;
    while i < lines.len()
        invariant
            i <= lines@.len(),
            views(lines@) == ls,
            ls == lines_of(endpoints@),
            all_parse(ls.take(i as int)),
            views(out@) == hosts(ls.take(i as int)),
        decreases lines@.len() - i,
    {
        assert(ls.take(i + 1).drop_last() =~= ls.take(i as int));
        assert(ls[i as int] == lines@[i as int]@);
        match parse_multiaddr(lines[i].as_str()) {
            Ok((text, comps)) => {
                let h = host(text, &comps);
                if h.unicode_len() > 0 {
                    let ghost before = out@;
                    out.push(h);
                    assert(views(out@) =~= views(before).push(h@));
                }
                assert(views(out@) =~= hosts(ls.take(i + 1)));
                assert(all_parse(ls.take(i + 1))) by {
                    assert forall|k: int| 0 <= k < i + 1 implies (#[trigger] multiaddr_parts(
                        ls.take(i + 1)[k],
                    )) is Some by {
                        if k < i {
                            assert(ls.take(i + 1)[k] == ls.take(i as int)[k]);
                        }
                    }
                }
            },
            Err(e) => {
                assert(!all_parse(ls)) by {
                    assert(multiaddr_parts(ls[i as int]) is None);
                }
                return Err(TestrpcError::LoadEndpointsError(e));
            },
        }
        i = i + 1;
    }
    assert(ls.take(i as int) =~= ls);
    Ok(out)
}

/// The JSON-RPC adapter.
pub struct HotshotAdapter;

impl HotshotAdapter {
    pub fn new() -> (r: Self) {
        HotshotAdapter
    }

    /// The payload of one delivery: `num_txs` transactions, each the
    /// hexadecimal form of `tx_size` random bytes.
    pub fn transactions(&self, num_txs: usize, tx_size: usize) -> (r: Vec<String>)
        ensures
            r@.len() == num_txs,
            forall|k: int| 0 <= k < r@.len() ==> is_hex_tx(#[trigger] r@[k]@, tx_size as nat),
            forall|k: int| 0 <= k < r@.len() ==> (#[trigger] r@[k]@).len() == 2 * tx_size,
    {
        let mut txs: Vec<String> = Vec::new();
        let mut i: usize = 0;
        while i < num_txs
            invariant
                i <= num_txs,
                txs@.len() == i,
                forall|k: int| 0 <= k < i ==> is_hex_tx(#[trigger] txs@[k]@, tx_size as nat),
                forall|k: int| 0 <= k < i ==> (#[trigger] txs@[k]@).len() == 2 * tx_size,
            decreases num_txs - i,
        {
            let bytes = random_bytes(tx_size);
            let t = hex_encode(&bytes);
            proof {
                lemma_hex_len(bytes@);
            }
            assert(is_hex_tx(t@, tx_size as nat));
            txs.push(t);
            i = i + 1;
        }
        txs
    }

    /// Result of a delivery whose request was answered: every transaction
    /// counts as sent.
    pub fn delivered(&self, num_txs: usize) -> (r: RoundResults)
        ensures
            r == (RoundResults { sent: num_txs, failed: 0 }),
    {
        RoundResults { sent: num_txs, failed: 0 }
    }
}

} // verus!
