//! Setting up the TUN interface.

use vstd::prelude::*;

use crate::addr::{ipv6_text, push_ipv6};
use crate::push::texts;
use crate::text::{decimal, push_decimal, push_text};

verus! {

/// The arguments of `ip` that add an IPv6 address to an interface.
pub open spec fn add_ipv6_command(iface: Seq<char>, addr: u128, prefix: u8) -> Seq<Seq<char>> {
    seq![
        "-6"@,
        "addr"@,
        "add"@,
        ipv6_text(addr) + "/"@ + decimal(prefix as nat),
        "dev"@,
        iface,
    ]
}

/// The arguments of `ip` that add an IPv6 address to an interface.
pub fn add_ipv6_args(iface: &str, addr: u128, prefix: u8) -> (r: Vec<String>)
    ensures
        texts(r@) == add_ipv6_command(iface@, addr, prefix),
{
    let mut cidr: String = String::new();
    push_ipv6(&mut cidr, addr);
    push_text(&mut cidr, "/");
    push_decimal(&mut cidr, prefix as u64);
    assert(cidr@ =~= ipv6_text(addr) + "/"@ + decimal(prefix as nat));
    let mut r: Vec<String> = Vec::new();
    r.push("-6".to_string());
    r.push("addr".to_string());
    r.push("add".to_string());
    r.push(cidr);
    r.push("dev".to_string());
    r.push(iface.to_string());
    assert(texts(r@) =~= add_ipv6_command(iface@, addr, prefix));
    r
}

/// The address goes to the interface that is named, with its prefix length
/// behind a slash.
pub proof fn law_ipv6_is_added(iface: Seq<char>, addr: u128, prefix: u8)
    ensures
        ({
            let args = add_ipv6_command(iface, addr, prefix);
            &&& args.len() == 6
            &&& args[0] == "-6"@ && args[1] == "addr"@ && args[2] == "add"@ && args[4] == "dev"@
            &&& args[3] == ipv6_text(addr) + seq!['/'] + decimal(prefix as nat)
            &&& args[5] == iface
        }),
{
    reveal_strlit("/");
    assert("/"@ =~= seq!['/']);
}

} // verus!
