//! Network addresses and their textual forms.

use vstd::prelude::*;

use crate::text;
use crate::text::{push_decimal, push_hexadecimal};

verus! {

/// An Internet address, as the octets that travel on the wire.
#[derive(Debug, Clone, Copy, PartialEq, Eq)]
pub enum IpAddress {
    /// An IPv4 address.
    V4([u8; 4]),
    /// An IPv6 address.
    V6([u8; 16]),
}

/// An address and port, with the two extra fields that an IPv6 socket address carries.
#[derive(Debug, Clone, Copy, PartialEq, Eq)]
pub struct SocketAddress {
    /// The host part.
    pub ip: IpAddress,
    /// The port.
    pub port: u16,
    /// Flow information; zero for IPv4.
    pub flow_info: u32,
    /// Scope identifier; zero for IPv4.
    pub scope_id: u32,
}

/// The octets of an address in network order.
pub open spec fn octets(ip: IpAddress) -> Seq<u8> {
    match ip {
        IpAddress::V4(bytes) => bytes@,
        IpAddress::V6(bytes) => bytes@,
    }
}

/// The dotted decimal form of four octets.
pub open spec fn dotted(bytes: Seq<u8>) -> Seq<char> {
    text::decimal(bytes[0] as nat) + seq!['.'] + text::decimal(bytes[1] as nat)
        + seq!['.'] + text::decimal(bytes[2] as nat) + seq!['.'] + text::decimal(
        bytes[3] as nat,
    )
}

/// The sixteen-bit groups of an IPv6 address.
pub open spec fn groups(bytes: Seq<u8>) -> Seq<u16> {
    Seq::new(8, |i: int| (bytes[2 * i] * 256 + bytes[2 * i + 1]) as u16)
}

/// Whether an IPv6 address stands for an IPv4 one (`::ffff:0:0/96`).
pub open spec fn is_mapped(words: Seq<u16>) -> bool {
    &&& forall|i: int| 0 <= i < 5 ==> words[i] == 0
    &&& words[5] == 0xffff
}

/// How many zero groups in a row start at position `i`.
pub open spec fn zero_run(words: Seq<u16>, i: int) -> nat
    decreases words.len() - i,
{
    if 0 <= i < words.len() && words[i] == 0 {
        1 + zero_run(words, i + 1)
    } else {
        0
    }
}

/// The first of the positions below `n` at which the longest run of zero groups starts.
pub open spec fn longest_run(words: Seq<u16>, n: nat) -> int
    decreases n,
{
    if n <= 1 {
        0
    } else {
        let best = longest_run(words, (n - 1) as nat);
        if zero_run(words, n - 1) > zero_run(words, best) {
            n - 1
        } else {
            best
        }
    }
}

/// The groups in hexadecimal, separated by colons.
pub open spec fn colon_joined(words: Seq<u16>) -> Seq<char>
    decreases words.len(),
{
    if words.len() == 0 {
        Seq::empty()
    } else if words.len() == 1 {
        text::hexadecimal(words[0] as nat)
    } else {
        colon_joined(words.drop_last()) + seq![':'] + text::hexadecimal(words.last() as nat)
    }
}

/// The canonical text of an IPv6 address: the first longest run of two or more zero groups is
/// written as `::`, and an IPv4-mapped address shows its IPv4 part in dotted form.
pub open spec fn v6_text(bytes: Seq<u8>) -> Seq<char> {
    let words = groups(bytes);
    let start = longest_run(words, 8);
    let len = zero_run(words, start);
    if is_mapped(words) {
        "::ffff:"@ + dotted(bytes.skip(12))
    } else if len > 1 {
        colon_joined(words.take(start)) + "::"@ + colon_joined(words.skip(start + len))
    } else {
        colon_joined(words)
    }
}

/// The canonical text of an address.
pub open spec fn ip_text(ip: IpAddress) -> Seq<char> {
    match ip {
        IpAddress::V4(bytes) => dotted(bytes@),
        IpAddress::V6(bytes) => v6_text(bytes@),
    }
}

/// The canonical text of a socket address; IPv6 hosts are bracketed, with their scope if any.
pub open spec fn socket_text(addr: SocketAddress) -> Seq<char> {
    let port = seq![':'] + text::decimal(addr.port as nat);
    match addr.ip {
        IpAddress::V4(_) => ip_text(addr.ip) + port,
        IpAddress::V6(_) => if addr.scope_id == 0 {
            seq!['['] + ip_text(addr.ip) + seq![']'] + port
        } else {
            seq!['['] + ip_text(addr.ip) + seq!['%'] + text::decimal(addr.scope_id as nat)
                + seq![']'] + port
        },
    }
}

/// No run of zero groups is longer than the compressed one, and none before it is as long.
pub proof fn longest_run_is_first_longest(words: Seq<u16>, n: nat, i: int)
    requires
        0 <= i < n,
    ensures
        0 <= longest_run(words, n) < n,
        zero_run(words, i) <= zero_run(words, longest_run(words, n)),
        i < longest_run(words, n) ==> zero_run(words, i) < zero_run(words, longest_run(words, n)),
    decreases n,
{
    if n > 1 {
        if i < n - 1 {
            longest_run_is_first_longest(words, (n - 1) as nat, i);
        } else {
            longest_run_is_first_longest(words, (n - 1) as nat, 0);
        }
    }
}

fn count_zeros(words: &[u16], i: usize) -> (n: usize)
    requires
        i <= words@.len(),
    ensures
        n == zero_run(words@, i as int),
        i + n <= words@.len(),
    decreases words@.len() - i,
{
    if i < words.len() && words[i] == 0 {
        1 + count_zeros(words, i + 1)
    } else {
        0
    }
}

fn push_dotted(out: &mut String, bytes: &[u8])
    requires
        bytes@.len() == 4,
    ensures
        final(out)@ == old(out)@ + dotted(bytes@),
{
    push_decimal(out, bytes[0] as u128);
    out.push('.');
    push_decimal(out, bytes[1] as u128);
    out.push('.');
    push_decimal(out, bytes[2] as u128);
    out.push('.');
    push_decimal(out, bytes[3] as u128);
    assert(out@ =~= old(out)@ + dotted(bytes@));
}

fn push_colon_joined(out: &mut String, words: &[u16])
    ensures
        final(out)@ == old(out)@ + colon_joined(words@),
{
    let mut i: usize = 0;
    assert(out@ =~= old(out)@ + colon_joined(words@.take(0)));
    while i < words.len()
        invariant
            i <= words@.len(),
            out@ == old(out)@ + colon_joined(words@.take(i as int)),
        decreases words@.len() - i,
    {
        let ghost before = out@;
        if i > 0 {
            out.push(':');
        }
        push_hexadecimal(out, words[i]);
        i += 1;
        proof {
            let shown = words@.take(i as int);
            assert(shown.drop_last() =~= words@.take(i - 1));
            assert(shown.last() == words@[i - 1]);
            assert(out@ =~= old(out)@ + colon_joined(shown));
        }
    }
    assert(words@.take(i as int) =~= words@);
}

fn words_of(bytes: &[u8]) -> (r: Vec<u16>)
    requires
        bytes@.len() == 16,
    ensures
        r@ == groups(bytes@),
{
    let mut out: Vec<u16> = Vec::new();
    let mut i: usize = 0;
    while i < 8
        invariant
            bytes@.len() == 16,
            i <= 8,
            out@.len() == i,
            forall|j: int| 0 <= j < i ==> out@[j] == groups(bytes@)[j],
        decreases 8 - i,
    {
        let high: u16 = bytes[2 * i] as u16;
        let low: u16 = bytes[2 * i + 1] as u16;
        out.push(high * 256 + low);
        i += 1;
    }
    assert(out@ =~= groups(bytes@));
    out
}

fn push_v6(out: &mut String, bytes: &[u8])
    requires
        bytes@.len() == 16,
    ensures
        final(out)@ == old(out)@ + v6_text(bytes@),
{
    let words = words_of(bytes);
    let mapped: bool = words[0] == 0 && words[1] == 0 && words[2] == 0 && words[3] == 0 && words[4]
        == 0 && words[5] == 0xffff;
    assert(mapped == is_mapped(words@)) by {
        if mapped {
            assert forall|i: int| 0 <= i < 5 implies words@[i] == 0 by {}
        }
    }
    if mapped {
        out.append("::ffff:");
        push_dotted(out, &bytes[12..16]);
        assert(bytes@.subrange(12, 16) =~= bytes@.skip(12));
        assert(out@ =~= old(out)@ + v6_text(bytes@));
        return;
    }
    let mut start: usize = 0;
    let mut len: usize = count_zeros(words.as_slice(), 0);
    let mut i: usize = 1;
    while i < 8
        invariant
            words@.len() == 8,
            1 <= i <= 8,
            start < i,
            start == longest_run(words@, i as nat),
            len == zero_run(words@, start as int),
            start + len <= 8,
        decreases 8 - i,
    {
        let n: usize = count_zeros(words.as_slice(), i);
        if n > len {
            start = i;
            len = n;
        }
        i += 1;
    }
    if len > 1 {
        push_colon_joined(out, &words.as_slice()[0..start]);
        out.append("::");
        push_colon_joined(out, &words.as_slice()[start + len..8]);
        assert(words@.subrange(0, start as int) =~= words@.take(start as int));
        assert(words@.subrange(start + len, 8) =~= words@.skip(start + len));
    } else {
        push_colon_joined(out, words.as_slice());
    }
    assert(out@ =~= old(out)@ + v6_text(bytes@));
}

fn same_bytes(a: &[u8], b: &[u8]) -> (r: bool)
    ensures
        r == (a@ == b@),
{
    if a.len() != b.len() {
        return false;
    }
    let mut i: usize = 0;
    while i < a.len()
        invariant
            a@.len() == b@.len(),
            i <= a@.len(),
            forall|j: int| 0 <= j < i ==> a@[j] == b@[j],
        decreases a@.len() - i,
    {
        if a[i] != b[i] {
            return false;
        }
        i += 1;
    }
    assert(a@ =~= b@);
    true
}

impl IpAddress {
    /// Whether two addresses are the same.
    pub fn same(&self, other: &IpAddress) -> (r: bool)
        ensures
            r == (*self == *other),
    {
        match (self, other) {
            (IpAddress::V4(a), IpAddress::V4(b)) => {
                let r: bool = same_bytes(a.as_slice(), b.as_slice());
                assert(r ==> *a =~= *b);
                r
            },
            (IpAddress::V6(a), IpAddress::V6(b)) => {
                let r: bool = same_bytes(a.as_slice(), b.as_slice());
                assert(r ==> *a =~= *b);
                r
            },
            _ => false,
        }
    }

    /// Appends the canonical text of the address.
    pub fn push_text(&self, out: &mut String)
        ensures
            final(out)@ == old(out)@ + ip_text(*self),
    {
        match self {
            IpAddress::V4(bytes) => push_dotted(out, bytes.as_slice()),
            IpAddress::V6(bytes) => push_v6(out, bytes.as_slice()),
        }
    }

    /// The canonical text of the address.
    pub fn to_string(&self) -> (r: String)
        ensures
            r@ == ip_text(*self),
    {
        let mut out = String::new();
        self.push_text(&mut out);
        out
    }
}

impl SocketAddress {
    /// An address and port, with no flow information and no scope.
    pub fn new(ip: IpAddress, port: u16) -> (r: SocketAddress)
        ensures
            r == (SocketAddress { ip, port, flow_info: 0, scope_id: 0 }),
    {
        SocketAddress { ip, port, flow_info: 0, scope_id: 0 }
    }

    /// The canonical text of the socket address.
    pub fn to_string(&self) -> (r: String)
        ensures
            r@ == socket_text(*self),
    {
        let mut out = String::new();
        match self.ip {
            IpAddress::V4(_) => {
                self.ip.push_text(&mut out);
            },
            IpAddress::V6(_) => {
                out.push('[');
                self.ip.push_text(&mut out);
                if self.scope_id != 0 {
                    out.push('%');
                    push_decimal(&mut out, self.scope_id as u128);
                }
                out.push(']');
            },
        }
        out.push(':');
        push_decimal(&mut out, self.port as u128);
        assert(out@ =~= socket_text(*self));
        out
    }
}

} // verus!
