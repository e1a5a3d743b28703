//! The grammar of a service address: `<scheme>://<host>:<port>` with one of
//! the three supported backend schemes. Addresses are validated locally,
//! before anything crosses the boundary.

use vstd::prelude::*;

use crate::keys::valid_key;
use crate::result::OffkvError;

verus! {

/// A character an address may hold: ASCII, and not the NUL terminator that
/// the boundary strings end with.
pub open spec fn is_addr_char(c: char) -> bool {
    1 <= c as int <= 127
}

/// A port digit.
pub open spec fn is_digit(c: char) -> bool {
    48 <= c as int <= 57
}

/// `p` opens `s`.
pub open spec fn has_prefix(s: Seq<char>, p: Seq<char>) -> bool {
    s.len() >= p.len() && s.take(p.len() as int) == p
}

/// The opening of an address naming the first supported backend.
pub open spec fn zk_prefix() -> Seq<char> {
    seq!['z', 'k', ':', '/', '/']
}

/// The opening of an address naming the second supported backend.
pub open spec fn consul_prefix() -> Seq<char> {
    seq!['c', 'o', 'n', 's', 'u', 'l', ':', '/', '/']
}

/// The opening of an address naming the third supported backend.
pub open spec fn etcd_prefix() -> Seq<char> {
    seq!['e', 't', 'c', 'd', ':', '/', '/']
}

/// `t` splits at `m` into a non-empty host, a `:`, and a non-empty all-digit
/// port, with `m` the first `:` of `t`.
pub open spec fn host_port_split_at(t: Seq<char>, m: int) -> bool {
    &&& 1 <= m < t.len() - 1
    &&& t[m] == ':'
    &&& forall|j: int| 0 <= j < m ==> t[j] != ':'
    &&& forall|j: int| m < j < t.len() ==> is_digit(#[trigger] t[j])
}

/// `t` is a well-formed `<host>:<port>` remainder.
pub open spec fn valid_host_port(t: Seq<char>) -> bool {
    exists|m: int| host_port_split_at(t, m)
}

/// The address grammar: a supported scheme, `://`, then host and port, all
/// of it ASCII and NUL-free.
pub open spec fn valid_address(s: Seq<char>) -> bool {
    &&& forall|i: int| 0 <= i < s.len() ==> is_addr_char(#[trigger] s[i])
    &&& {
        ||| has_prefix(s, zk_prefix()) && valid_host_port(s.skip(5))
        ||| has_prefix(s, consul_prefix()) && valid_host_port(s.skip(9))
        ||| has_prefix(s, etcd_prefix()) && valid_host_port(s.skip(7))
    }
}

/// Only the first `:` can split a host from a port.
proof fn lemma_split_unique(t: Seq<char>, m: int)
    requires
        0 <= m < t.len(),
        t[m] == ':',
        forall|j: int| 0 <= j < m ==> t[j] != ':',
    ensures
        forall|mm: int| host_port_split_at(t, mm) ==> mm == m,
{
    assert forall|mm: int| host_port_split_at(t, mm) implies mm == m by {
        if mm < m {
            assert(t[mm] != ':');
        } else if mm > m {
            assert(t[m] != ':');
        }
    }
}

/// Decides whether `p` opens `s`.
fn check_prefix(s: &str, p: &str) -> (r: bool)
    ensures
        r == has_prefix(s@, p@),
{
    let ns = s.unicode_len();
    let np = p.unicode_len();
    if ns < np {
        return false;
    }
    let mut i: usize = 0;
    while i < np
        invariant
            0 <= i <= np,
            ns == s@.len(),
            np == p@.len(),
            np <= ns,
            forall|j: int| 0 <= j < i ==> s@[j] == p@[j],
        decreases np - i,
    {
        if s.get_char(i) != p.get_char(i) {
            proof {
                assert(s@.take(np as int)[i as int] != p@[i as int]);
            }
            return false;
        }
        i = i + 1;
    }
    proof {
        assert(s@.take(np as int) =~= p@);
    }
    true
}

/// Decides the `<host>:<port>` remainder grammar.
fn check_host_port(t: &str) -> (r: bool)
    ensures
        r == valid_host_port(t@),
{
    let n = t.unicode_len();
    let mut m: usize = 0;
    while m < n && t.get_char(m) != ':'
        invariant
            0 <= m <= n,
            n == t@.len(),
            forall|j: int| 0 <= j < m ==> t@[j] != ':',
        decreases n - m,
    {
        m = m + 1;
    }
    if m == n {
        proof {
            assert forall|mm: int| !host_port_split_at(t@, mm) by {
                if 0 <= mm < n {
                    assert(t@[mm] != ':');
                }
            }
        }
        return false;
    }
    proof {
        lemma_split_unique(t@, m as int);
    }
    if m == 0 {
        return false;
    }
    if m + 1 >= n {
        return false;
    }
    let mut j: usize = m + 1;
    while j < n
        invariant
            m + 1 <= j <= n,
            n == t@.len(),
            0 < m < n - 1,
            t@[m as int] == ':',
            forall|k: int| 0 <= k < m ==> t@[k] != ':',
            forall|k: int| m < k < j ==> is_digit(#[trigger] t@[k]),
        decreases n - j,
    {
        let c = t.get_char(j);
        let u = c as u32;
        if u < 48 || u > 57 {
            proof {
                lemma_split_unique(t@, m as int);
                assert(!is_digit(t@[j as int]));
            }
            return false;
        }
        j = j + 1;
    }
    proof {
        assert(host_port_split_at(t@, m as int));
    }
    true
}

/// Decides whether every character may appear in an address.
fn check_addr_chars(s: &str) -> (r: bool)
    ensures
        r == forall|i: int| 0 <= i < s@.len() ==> is_addr_char(#[trigger] s@[i]),
{
    let n = s.unicode_len();
    let mut i: usize = 0;
    while i < n
        invariant
            0 <= i <= n,
            n == s@.len(),
            forall|j: int| 0 <= j < i ==> is_addr_char(#[trigger] s@[j]),
        decreases n - i,
    {
        let u = s.get_char(i) as u32;
        if u < 1 || u > 127 {
            return false;
        }
        i = i + 1;
    }
    true
}

/// Decides the address grammar.
pub fn check_address(addr: &str) -> (r: bool)
    ensures
        r == valid_address(addr@),
{
    if !check_addr_chars(addr) {
        return false;
    }
    let n = addr.unicode_len();
    let zk = "zk://";
    let consul = "consul://";
    let etcd = "etcd://";
    proof {
        reveal_strlit("zk://");
        reveal_strlit("consul://");
        reveal_strlit("etcd://");
        assert(zk@ =~= zk_prefix());
        assert(consul@ =~= consul_prefix());
        assert(etcd@ =~= etcd_prefix());
    }
    if check_prefix(addr, zk) {
        let rest = addr.substring_char(5, n);
        proof {
            assert(rest@ =~= addr@.skip(5));
        }
        check_host_port(rest)
    } else if check_prefix(addr, consul) {
        let rest = addr.substring_char(9, n);
        proof {
            assert(rest@ =~= addr@.skip(9));
        }
        check_host_port(rest)
    } else if check_prefix(addr, etcd) {
        let rest = addr.substring_char(7, n);
        proof {
            assert(rest@ =~= addr@.skip(7));
        }
        check_host_port(rest)
    } else {
        false
    }
}

/// Validates the arguments of `open` locally: the address grammar, and the
/// key grammar (or emptiness) of the prefix. Nothing crosses the boundary
/// when either fails.
pub fn validate_open(url: &str, prefix: &str) -> (r: Result<(), OffkvError>)
    ensures
        r is Ok <==> valid_address(url@) && (prefix@.len() == 0 || valid_key(prefix@)),
        !valid_address(url@) ==> r == Err::<(), OffkvError>(OffkvError::InvalidAddress),
        valid_address(url@) && !(prefix@.len() == 0 || valid_key(prefix@)) ==> r == Err::<
            (),
            OffkvError,
        >(OffkvError::InvalidKey),
{
    if !check_address(url) {
        return Err(OffkvError::InvalidAddress);
    }
    if !prefix.is_empty() {
        if !crate::keys::check_key(prefix) {
            return Err(OffkvError::InvalidKey);
        }
    }
    Ok(())
}

} // verus!
