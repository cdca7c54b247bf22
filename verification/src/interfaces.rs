use vstd::prelude::*;
use vstd::string::StringExecFns;

use crate::net::{
    IpAddress, Ipv4Address, spec_global, spec_shared,
};

verus! {

/// A network interface as the operating system lists it: its name and the
/// addresses bound to it, in the order listed.
pub struct Interface {
    pub name: String,
    pub addrs: Vec<IpAddress>,
}

/// An address the client may send from: an IPv4 address that is globally
/// reachable or lies in the shared address space (carrier-grade NAT, as some
/// satellite links hand out). IPv6 addresses are not used.
pub open spec fn spec_usable(a: IpAddress) -> bool {
    match a {
        IpAddress::V4(v4) => spec_shared(v4) || spec_global(v4),
        IpAddress::V6(_) => false,
    }
}

/// The first usable address of a list, if any.
pub open spec fn spec_first_usable(addrs: Seq<IpAddress>) -> Option<IpAddress>
    decreases addrs.len(),
{
    if addrs.len() == 0 {
        None
    } else if spec_usable(addrs[0]) {
        Some(addrs[0])
    } else {
        spec_first_usable(addrs.drop_first())
    }
}

/// What the first usable address of a list is made of: it is usable, it is
/// in the list, and no address before it is usable; with none, no address is.
pub proof fn lemma_first_usable(addrs: Seq<IpAddress>)
    ensures
        spec_first_usable(addrs) matches Some(a) ==> spec_usable(a) && exists|i: int|
            0 <= i < addrs.len() && addrs[i] == a && forall|j: int|
                0 <= j < i ==> !spec_usable(#[trigger] addrs[j]),
        spec_first_usable(addrs) is None ==> forall|j: int|
            0 <= j < addrs.len() ==> !spec_usable(#[trigger] addrs[j]),
    decreases addrs.len(),
{
    if addrs.len() > 0 && !spec_usable(addrs[0]) {
        let rest = addrs.drop_first();
        lemma_first_usable(rest);
        if let Some(a) = spec_first_usable(rest) {
            let i = choose|i: int|
                0 <= i < rest.len() && rest[i] == a && forall|j: int|
                    0 <= j < i ==> !spec_usable(#[trigger] rest[j]);
            assert(addrs[i + 1] == a);
            assert forall|j: int| 0 <= j < i + 1 implies !spec_usable(#[trigger] addrs[j]) by {
                if j > 0 {
                    assert(addrs[j] == rest[j - 1]);
                }
            }
        } else {
            assert forall|j: int| 0 <= j < addrs.len() implies !spec_usable(#[trigger] addrs[j]) by {
                if j > 0 {
                    assert(addrs[j] == rest[j - 1]);
                }
            }
        }
    } else if addrs.len() > 0 {
        assert(addrs[0] == spec_first_usable(addrs).unwrap());
    }
}

/// Which addresses the client sends from, octet by octet: no IPv6 address;
/// an IPv4 address in the shared space `100.64.0.0/10`; and otherwise an
/// IPv4 address outside every special-purpose range: `0.0.0.0/8`,
/// `10.0.0.0/8`, `172.16.0.0/12`, `192.168.0.0/16`, `127.0.0.0/8`,
/// `169.254.0.0/16`, `192.0.0.0/24` but for `.9` and `.10`, the three
/// documentation ranges, `198.18.0.0/15`, and `240.0.0.0/4` with the
/// broadcast address.
pub proof fn lemma_usable_law(a: Ipv4Address, bits: u128)
    ensures
        !spec_usable(IpAddress::V6(bits)),
        spec_usable(IpAddress::V4(a)) <==> (a.0 == 100 && 64 <= a.1 <= 127) || !(a.0 == 0
            || a.0 == 10 || (a.0 == 172 && 16 <= a.1 <= 31) || (a.0 == 192 && a.1 == 168)
            || a.0 == 127 || (a.0 == 169 && a.1 == 254) || (a.0 == 192 && a.1 == 0 && a.2 == 0
            && a.3 != 9 && a.3 != 10) || (a.0 == 192 && a.1 == 0 && a.2 == 2) || (a.0 == 198
            && a.1 == 51 && a.2 == 100) || (a.0 == 203 && a.1 == 0 && a.2 == 113) || (a.0 == 198
            && (a.1 == 18 || a.1 == 19)) || a.0 >= 240),
{
}

/// Whether an address is one the client may send from.
pub fn is_usable(a: &IpAddress) -> (r: bool)
    ensures
        r == spec_usable(*a),
{
    match a {
        IpAddress::V4(v4) => v4.is_shared() || v4.is_global(),
        IpAddress::V6(_) => false,
    }
}

/// The address of an interface that the client sends from: the first
/// IPv4 address of the interface that is in the shared address space or
/// globally reachable. Every other address is skipped.
pub fn get_address_by_interface(iface: &Interface) -> (r: Option<IpAddress>)
    ensures
        r == spec_first_usable(iface.addrs@),
{
    let n = iface.addrs.len();
    let mut i: usize = 0;
    assert(iface.addrs@.skip(0) =~= iface.addrs@);
    while i < n
        invariant
            n == iface.addrs@.len(),
            0 <= i <= n,
            spec_first_usable(iface.addrs@) == spec_first_usable(iface.addrs@.skip(i as int)),
        decreases n - i,
    {
        let a = iface.addrs[i];
        assert(iface.addrs@.skip(i as int)[0] == a);
        if is_usable(&a) {
            return Some(a);
        }
        assert(iface.addrs@.skip(i as int).drop_first() =~= iface.addrs@.skip(i + 1));
        i = i + 1;
    }
    assert(iface.addrs@.skip(i as int).len() == 0);
    None
}

/// The decimal digit `d` as a character.
pub open spec fn spec_digit(d: int) -> char {
    if d == 0 {
        '0'
    } else if d == 1 {
        '1'
    } else if d == 2 {
        '2'
    } else if d == 3 {
        '3'
    } else if d == 4 {
        '4'
    } else if d == 5 {
        '5'
    } else if d == 6 {
        '6'
    } else if d == 7 {
        '7'
    } else if d == 8 {
        '8'
    } else {
        '9'
    }
}

/// The decimal notation of a natural number, without leading zeros.
pub open spec fn spec_decimal(n: nat) -> Seq<char>
    decreases n,
{
    if n < 10 {
        seq![spec_digit(n as int)]
    } else {
        spec_decimal(n / 10) + seq![spec_digit((n % 10) as int)]
    }
}

/// The dotted-decimal notation of an IPv4 address, such as `192.0.2.1`.
pub open spec fn spec_dotted(a: Ipv4Address) -> Seq<char> {
    spec_decimal(a.0 as nat) + seq!['.'] + spec_decimal(a.1 as nat) + seq!['.'] + spec_decimal(
        a.2 as nat,
    ) + seq!['.'] + spec_decimal(a.3 as nat)
}

/// The text an interface listing shows as its address: the dotted-decimal
/// form of its usable address, or nothing.
pub open spec fn spec_address_text(addrs: Seq<IpAddress>) -> Seq<char> {
    match spec_first_usable(addrs) {
        Some(IpAddress::V4(a)) => spec_dotted(a),
        _ => Seq::empty(),
    }
}

fn digit_text(d: u8) -> (r: &'static str)
    requires
        d < 10,
    ensures
        r@ == seq![spec_digit(d as int)],
{
    if d == 0 {
        proof { reveal_strlit("0"); }
        "0"
    } else if d == 1 {
        proof { reveal_strlit("1"); }
        "1"
    } else if d == 2 {
        proof { reveal_strlit("2"); }
        "2"
    } else if d == 3 {
        proof { reveal_strlit("3"); }
        "3"
    } else if d == 4 {
        proof { reveal_strlit("4"); }
        "4"
    } else if d == 5 {
        proof { reveal_strlit("5"); }
        "5"
    } else if d == 6 {
        proof { reveal_strlit("6"); }
        "6"
    } else if d == 7 {
        proof { reveal_strlit("7"); }
        "7"
    } else if d == 8 {
        proof { reveal_strlit("8"); }
        "8"
    } else {
        proof { reveal_strlit("9"); }
        "9"
    }
}

fn append_decimal(s: &mut String, n: u8)
    ensures
        final(s)@ == old(s)@ + spec_decimal(n as nat),
{
    let ghost start = s@;
    let ghost m = n as nat;
    if n >= 100 {
        s.append(digit_text(n / 100));
        s.append(digit_text((n / 10) % 10));
        s.append(digit_text(n % 10));
        proof {
            assert(spec_decimal(m / 10 / 10) == seq![spec_digit((m / 100) as int)]);
            assert(spec_decimal(m / 10) == spec_decimal(m / 10 / 10) + seq![
                spec_digit(((m / 10) % 10) as int),
            ]);
            assert(spec_decimal(m) == spec_decimal(m / 10) + seq![spec_digit((m % 10) as int)]);
            assert(s@ =~= start + spec_decimal(m));
        }
    } else if n >= 10 {
        s.append(digit_text(n / 10));
        s.append(digit_text(n % 10));
        proof {
            assert(spec_decimal(m / 10) == seq![spec_digit((m / 10) as int)]);
            assert(spec_decimal(m) == spec_decimal(m / 10) + seq![spec_digit((m % 10) as int)]);
            assert(s@ =~= start + spec_decimal(m));
        }
    } else {
        s.append(digit_text(n));
        proof {
            assert(s@ =~= start + spec_decimal(m));
        }
    }
}

/// The dotted-decimal notation of an IPv4 address.
pub fn dotted(a: &Ipv4Address) -> (r: String)
    ensures
        r@ == spec_dotted(*a),
{
    let mut s = String::new();
    append_decimal(&mut s, a.0);
    proof { reveal_strlit("."); }
    s.append(".");
    append_decimal(&mut s, a.1);
    s.append(".");
    append_decimal(&mut s, a.2);
    s.append(".");
    append_decimal(&mut s, a.3);
    assert(s@ =~= spec_dotted(*a));
    s
}

/// The address line of an interface listing: the interface's usable
/// address in dotted-decimal form, or the empty string when it has none.
pub fn address_text(iface: &Interface) -> (r: String)
    ensures
        r@ == spec_address_text(iface.addrs@),
{
    match get_address_by_interface(iface) {
        Some(IpAddress::V4(a)) => dotted(&a),
        _ => String::new(),
    }
}

} // verus!
