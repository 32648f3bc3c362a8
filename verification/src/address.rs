//! The text forms of what a packet record says about a socket: its
//! addresses and its protocol.

use vstd::prelude::*;

verus! {

/// The socket type of a stream socket.
pub const SOCK_STREAM: i32 = 1;

/// The socket type of a datagram socket.
pub const SOCK_DGRAM: i32 = 2;

/// A socket address, as far as a packet record tells it.
#[derive(Clone, Copy, Debug, PartialEq, Eq)]
pub enum SocketAddress {
    /// An IPv4 address, its four bytes in the order they are written, and a port.
    V4 { octets: [u8; 4], port: u16 },
    /// An IPv6 address.
    V6,
    /// An address of any other family.
    Other,
}

/// The decimal digit for a value below 10.
pub open spec fn digit_char(n: int) -> char {
    ('0' as u32 + n) as char
}

/// The decimal numeral of a number, without leading zeros.
pub open spec fn decimal(n: nat) -> Seq<char>
    decreases n,
{
    if n < 10 {
        seq![digit_char(n as int)]
    } else {
        decimal(n / 10).push(digit_char((n % 10) as int))
    }
}

/// An IPv4 address and port in the form `a.b.c.d:port`.
pub open spec fn ipv4_text(octets: Seq<u8>, port: u16) -> Seq<char> {
    decimal(octets[0] as nat) + seq!['.'] + decimal(octets[1] as nat) + seq!['.'] + decimal(
        octets[2] as nat,
    ) + seq!['.'] + decimal(octets[3] as nat) + seq![':'] + decimal(port as nat)
}

/// The text of a socket address: `a.b.c.d:port` for IPv4, the placeholder
/// `::1:0` for IPv6, none for other families.
pub open spec fn address_text(addr: SocketAddress) -> Option<Seq<char>> {
    match addr {
        SocketAddress::V4 { octets, port } => Some(ipv4_text(octets@, port)),
        SocketAddress::V6 => Some("::1:0"@),
        SocketAddress::Other => None,
    }
}

/// The protocol that a socket type stands for. `None` is a socket whose
/// type could not be learned; it counts as a stream socket.
pub open spec fn protocol_text(socket_type: Option<i32>) -> Seq<char> {
    match socket_type {
        None => "TCP"@,
        Some(t) => if t == SOCK_STREAM {
            "TCP"@
        } else if t == SOCK_DGRAM {
            "UDP"@
        } else {
            "UNKNOWN"@
        },
    }
}

/// Appends the decimal numeral of `n` to `out`.
fn push_decimal(out: &mut String, n: u32)
    ensures
        final(out)@ == old(out)@ + decimal(n as nat),
    decreases n,
{
    if n >= 10 {
        push_decimal(out, n / 10);
    }
    let digits = "0123456789";
    proof {
        reveal_strlit("0123456789");
    }
    let at: usize = (n % 10) as usize;
    let digit = digits.substring_ascii(at, at + 1);
    assert(digit@ =~= seq![digit_char((n % 10) as int)]);
    out.append(digit);
    proof {
        if n >= 10 {
            assert(out@ =~= old(out)@ + decimal(n as nat / 10).push(digit_char((n % 10) as int)));
        } else {
            assert(out@ =~= old(out)@ + seq![digit_char(n as int)]);
        }
    }
}

/// Writes a socket address as text.
pub fn sockaddr_to_string(addr: &SocketAddress) -> (r: Option<String>)
    ensures
        match r {
            Some(text) => address_text(*addr) == Some(text@),
            None => address_text(*addr) is None,
        },
{
    match addr {
        SocketAddress::V4 { octets, port } => {
            let mut out = String::new();
            proof {
                reveal_strlit(".");
                reveal_strlit(":");
            }
            push_decimal(&mut out, octets[0] as u32);
            out.append(".");
            push_decimal(&mut out, octets[1] as u32);
            out.append(".");
            push_decimal(&mut out, octets[2] as u32);
            out.append(".");
            push_decimal(&mut out, octets[3] as u32);
            out.append(":");
            push_decimal(&mut out, *port as u32);
            proof {
                assert("."@ =~= seq!['.']);
                assert(":"@ =~= seq![':']);
                assert(out@ =~= ipv4_text(octets@, *port));
            }
            Some(out)
        },
        SocketAddress::V6 => Some("::1:0".to_owned()),
        SocketAddress::Other => None,
    }
}

/// Names the protocol of a socket from its type: `"TCP"` for a stream
/// socket, `"UDP"` for a datagram socket, `"UNKNOWN"` for any other, and
/// `"TCP"` where the type could not be learned.
pub fn get_socket_protocol(socket_type: Option<i32>) -> (r: String)
    ensures
        r@ == protocol_text(socket_type),
{
    match socket_type {
        None => "TCP".to_owned(),
        Some(t) => if t == SOCK_STREAM {
            "TCP".to_owned()
        } else if t == SOCK_DGRAM {
            "UDP".to_owned()
        } else {
            "UNKNOWN".to_owned()
        },
    }
}

} // verus!
