//! Masquerading of client traffic: which firewall rules are installed and
//! removed, and what the kernel's tables say.
//!
//! Enabling it turns IPv4 forwarding on, masquerades what leaves through the
//! outside interface, and permits forwarding between it and the tunnel. All of
//! that is undone by the steps of [`NatGuard::cleanup`].

use vstd::prelude::*;
use vstd::std_specs::bits::u32_leading_ones;

use crate::addr::{ipv4_text, lemma_ipv4_text_chars, push_ipv4, IpAddress};
use crate::config::ServerConfig;
use crate::push::{law_mask_bits, mask_of, route_of};
use crate::text::{
    chars_of, copy_text, decimal, law_decimal_round_trip, lines, push_decimal, push_text,
    same_text, trim_range, trimmed, word_ranges, words,
};

verus! {

/// Why masquerading cannot be set up.
#[derive(Debug, Clone, Copy, PartialEq, Eq, Structural)]
pub enum NatError {
    /// The routing table has no default route.
    NoDefaultRoute,
    /// The tunnel's address is not IPv4.
    TunIpNotV4,
    /// The tunnel's netmask is not IPv4.
    NetmaskNotV4,
}

/// What is to be undone at the end.
#[derive(Debug)]
pub struct NatGuard {
    pub tun_iface: String,
    pub wan_iface: String,
    pub cidr: String,
    /// Whether forwarding was on before, if that is known.
    pub prior_ip_forward: Option<bool>,
}

/// Something to be done to the host.
#[derive(Debug)]
pub enum NatAction {
    /// Turn IPv4 forwarding on or off.
    SetIpForward(bool),
    /// Run `iptables` with these arguments.
    Iptables(Vec<String>),
}

/// One step of setting up or tearing down.
#[derive(Debug)]
pub struct NatStep {
    pub action: NatAction,
    /// Whether a failure ends the whole undertaking.
    pub required: bool,
}

/// What a [`NatAction`] is.
pub ghost enum ActionView {
    SetIpForward(bool),
    Iptables(Seq<Seq<char>>),
}

/// What a [`NatStep`] is.
pub ghost struct StepView {
    pub action: ActionView,
    pub required: bool,
}

impl View for NatStep {
    type V = StepView;

    open spec fn view(&self) -> StepView {
        StepView {
            action: match self.action {
                NatAction::SetIpForward(on) => ActionView::SetIpForward(on),
                NatAction::Iptables(args) => ActionView::Iptables(args@.map_values(|s: String| s@)),
            },
            required: self.required,
        }
    }
}

/// What the steps of a list are.
pub open spec fn steps_view(steps: Seq<NatStep>) -> Seq<StepView> {
    steps.map_values(|s: NatStep| s@)
}

/// The rule that masquerades what leaves the tunnel's network.
pub open spec fn masquerade_rule(op: Seq<char>, cidr: Seq<char>, wan: Seq<char>) -> Seq<Seq<char>> {
    seq![
        "-t"@,
        "nat"@,
        op,
        "POSTROUTING"@,
        "-s"@,
        cidr,
        "-o"@,
        wan,
        "-j"@,
        "MASQUERADE"@,
    ]
}

/// The rule that permits traffic from the tunnel to the outside.
pub open spec fn outward_rule(op: Seq<char>, tun: Seq<char>, wan: Seq<char>) -> Seq<Seq<char>> {
    seq![op, "FORWARD"@, "-i"@, tun, "-o"@, wan, "-j"@, "ACCEPT"@]
}

/// The rule that permits answers from the outside to the tunnel.
pub open spec fn inward_rule(op: Seq<char>, tun: Seq<char>, wan: Seq<char>) -> Seq<Seq<char>> {
    seq![
        op,
        "FORWARD"@,
        "-i"@,
        wan,
        "-o"@,
        tun,
        "-m"@,
        "state"@,
        "--state"@,
        "RELATED,ESTABLISHED"@,
        "-j"@,
        "ACCEPT"@,
    ]
}

/// A step that runs `iptables`.
pub open spec fn rule_step(rule: Seq<Seq<char>>, required: bool) -> StepView {
    StepView { action: ActionView::Iptables(rule), required }
}

/// The three rules in the order in which they are installed.
pub open spec fn rule_steps(
    op: Seq<char>,
    tun: Seq<char>,
    wan: Seq<char>,
    cidr: Seq<char>,
    required: bool,
) -> Seq<StepView> {
    seq![
        rule_step(masquerade_rule(op, cidr, wan), required),
        rule_step(outward_rule(op, tun, wan), required),
        rule_step(inward_rule(op, tun, wan), required),
    ]
}

/// The steps that set masquerading up: forwarding is turned on unless it is
/// known to be on; rules of an earlier run are removed, if there are any; then
/// the rules are installed.
pub open spec fn setup_steps(
    tun: Seq<char>,
    wan: Seq<char>,
    cidr: Seq<char>,
    prior: Option<bool>,
) -> Seq<StepView> {
    let forward: Seq<StepView> = if prior == Some(true) {
        Seq::empty()
    } else {
        seq![StepView { action: ActionView::SetIpForward(true), required: true }]
    };
    forward + rule_steps("-D"@, tun, wan, cidr, false) + rule_steps("-A"@, tun, wan, cidr, true)
}

/// The steps that tear masquerading down: the rules go in the reverse order,
/// and forwarding is what it was, if that is known.
pub open spec fn cleanup_steps(
    tun: Seq<char>,
    wan: Seq<char>,
    cidr: Seq<char>,
    prior: Option<bool>,
) -> Seq<StepView> {
    let forward: Seq<StepView> = match prior {
        Some(on) => seq![StepView { action: ActionView::SetIpForward(on), required: false }],
        None => Seq::empty(),
    };
    rule_steps("-D"@, tun, wan, cidr, false).reverse() + forward
}

/// Appends a copy of `s`.
fn arg(args: &mut Vec<String>, s: &str)
    ensures
        final(args)@.map_values(|s: String| s@) == old(args)@.map_values(|s: String| s@).push(s@),
{
    args.push(s.to_string());
    assert(args@.map_values(|s: String| s@) =~= old(args)@.map_values(|s: String| s@).push(s@));
}

/// The step for the rule that masquerades.
fn masquerade_step(op: &str, cidr: &str, wan: &str, required: bool) -> (r: NatStep)
    ensures
        r@ == rule_step(masquerade_rule(op@, cidr@, wan@), required),
{
    let mut args: Vec<String> = Vec::new();
    arg(&mut args, "-t");
    arg(&mut args, "nat");
    arg(&mut args, op);
    arg(&mut args, "POSTROUTING");
    arg(&mut args, "-s");
    arg(&mut args, cidr);
    arg(&mut args, "-o");
    arg(&mut args, wan);
    arg(&mut args, "-j");
    arg(&mut args, "MASQUERADE");
    assert(args@.map_values(|s: String| s@) =~= masquerade_rule(op@, cidr@, wan@));
    NatStep { action: NatAction::Iptables(args), required }
}

/// The step for the rule outward.
fn outward_step(op: &str, tun: &str, wan: &str, required: bool) -> (r: NatStep)
    ensures
        r@ == rule_step(outward_rule(op@, tun@, wan@), required),
{
    let mut args: Vec<String> = Vec::new();
    arg(&mut args, op);
    arg(&mut args, "FORWARD");
    arg(&mut args, "-i");
    arg(&mut args, tun);
    arg(&mut args, "-o");
    arg(&mut args, wan);
    arg(&mut args, "-j");
    arg(&mut args, "ACCEPT");
    assert(args@.map_values(|s: String| s@) =~= outward_rule(op@, tun@, wan@));
    NatStep { action: NatAction::Iptables(args), required }
}

/// The step for the rule inward.
fn inward_step(op: &str, tun: &str, wan: &str, required: bool) -> (r: NatStep)
    ensures
        r@ == rule_step(inward_rule(op@, tun@, wan@), required),
{
    let mut args: Vec<String> = Vec::new();
    arg(&mut args, op);
    arg(&mut args, "FORWARD");
    arg(&mut args, "-i");
    arg(&mut args, wan);
    arg(&mut args, "-o");
    arg(&mut args, tun);
    arg(&mut args, "-m");
    arg(&mut args, "state");
    arg(&mut args, "--state");
    arg(&mut args, "RELATED,ESTABLISHED");
    arg(&mut args, "-j");
    arg(&mut args, "ACCEPT");
    assert(args@.map_values(|s: String| s@) =~= inward_rule(op@, tun@, wan@));
    NatStep { action: NatAction::Iptables(args), required }
}

/// How client traffic is masqueraded: the steps to take now, and the guard
/// that knows how to undo them. `prior` is whether forwarding is on already,
/// if that is known; where it is, it is not written again, since it may be
/// read-only.
pub fn enable_masquerade(
    tun_iface: &str,
    wan_iface: &str,
    tun_ip: u32,
    tun_netmask: u32,
    prior: Option<bool>,
) -> (r: (NatGuard, Vec<NatStep>))
    ensures
        r.0.tun_iface@ == tun_iface@,
        r.0.wan_iface@ == wan_iface@,
        r.0.cidr@ == cidr_text(tun_ip, tun_netmask),
        r.0.prior_ip_forward == prior,
        steps_view(r.1@) == setup_steps(
            tun_iface@,
            wan_iface@,
            cidr_text(tun_ip, tun_netmask),
            prior,
        ),
{
    let cidr: String = subnet_to_cidr(tun_ip, tun_netmask);
    let mut steps: Vec<NatStep> = Vec::new();
    let on: bool = match prior {
        Some(on) => on,
        None => false,
    };
    if !on {
        steps.push(NatStep { action: NatAction::SetIpForward(true), required: true });
    }
    steps.push(masquerade_step("-D", cidr.as_str(), wan_iface, false));
    steps.push(outward_step("-D", tun_iface, wan_iface, false));
    steps.push(inward_step("-D", tun_iface, wan_iface, false));
    steps.push(masquerade_step("-A", cidr.as_str(), wan_iface, true));
    steps.push(outward_step("-A", tun_iface, wan_iface, true));
    steps.push(inward_step("-A", tun_iface, wan_iface, true));
    assert(steps_view(steps@) =~= setup_steps(tun_iface@, wan_iface@, cidr@, prior));
    let guard = NatGuard {
        tun_iface: tun_iface.to_string(),
        wan_iface: wan_iface.to_string(),
        cidr,
        prior_ip_forward: prior,
    };
    (guard, steps)
}

impl NatGuard {
    /// The steps that undo what was set up. None of them is required.
    pub fn cleanup(&self) -> (steps: Vec<NatStep>)
        ensures
            steps_view(steps@) == cleanup_steps(
                self.tun_iface@,
                self.wan_iface@,
                self.cidr@,
                self.prior_ip_forward,
            ),
    {
        let tun = self.tun_iface.as_str();
        let wan = self.wan_iface.as_str();
        let mut steps: Vec<NatStep> = Vec::new();
        steps.push(inward_step("-D", tun, wan, false));
        steps.push(outward_step("-D", tun, wan, false));
        steps.push(masquerade_step("-D", self.cidr.as_str(), wan, false));
        if let Some(on) = self.prior_ip_forward {
            steps.push(NatStep { action: NatAction::SetIpForward(on), required: false });
        }
        assert(steps_view(steps@) =~= cleanup_steps(
            tun@,
            wan@,
            self.cidr@,
            self.prior_ip_forward,
        ));
        steps
    }
}

/// The network of an address, as a CIDR; the prefix length counts the one bits
/// at the top of the mask.
pub open spec fn cidr_text(ip: u32, mask: u32) -> Seq<char> {
    ipv4_text(ip & mask) + "/"@ + decimal(u32_leading_ones(mask) as nat)
}

/// The network of an address, as a CIDR: `10.8.0.0/24` for 10.8.0.1 and
/// 255.255.255.0.
pub fn subnet_to_cidr(ip: u32, mask: u32) -> (s: String)
    ensures
        s@ == cidr_text(ip, mask),
{
    let mut s: String = String::new();
    push_ipv4(&mut s, ip & mask);
    push_text(&mut s, "/");
    push_decimal(&mut s, mask.leading_ones() as u64);
    assert(s@ =~= cidr_text(ip, mask));
    s
}

/// Whether a line of the routing table is a default route: it has eight
/// columns or more, and the destination, in the second, is all zeros.
pub open spec fn is_default_line(line: Seq<char>) -> bool {
    words(line).len() >= 8 && words(line)[1] == "00000000"@
}

/// The interface of the first default route among `lines`.
pub open spec fn default_iface(lines: Seq<Seq<char>>) -> Option<Seq<char>>
    decreases lines.len(),
{
    if lines.len() == 0 {
        None
    } else {
        match default_iface(lines.drop_last()) {
            Some(iface) => Some(iface),
            None => if is_default_line(lines.last()) {
                Some(words(lines.last())[0])
            } else {
                None
            },
        }
    }
}

/// The interface of the default route in a routing table, whose first line is
/// a heading.
pub open spec fn default_iface_of(table: Seq<char>) -> Option<Seq<char>> {
    default_iface(lines(table).skip(1))
}

/// The interface that the line `text[from..to]` names, if it is a default
/// route.
fn line_iface(text: &str, v: &Vec<char>, from: usize, to: usize) -> (r: Option<String>)
    requires
        v@ == text@,
        from <= to <= v@.len(),
    ensures
        match r {
            Some(s) => is_default_line(text@.subrange(from as int, to as int)) && s@ == words(
                text@.subrange(from as int, to as int),
            )[0],
            None => !is_default_line(text@.subrange(from as int, to as int)),
        },
{
    let cols: Vec<(usize, usize)> = word_ranges(v, from, to);
    if cols.len() < 8 {
        return None;
    }
    let (a, b) = cols[1];
    let dest: String = copy_text(text, a, b);
    if same_text(dest.as_str(), "00000000") {
        let (a, b) = cols[0];
        Some(copy_text(text, a, b))
    } else {
        None
    }
}

/// The interface of the IPv4 default route, from the text of the kernel's
/// routing table (`/proc/net/route`).
pub fn detect_default_route_iface(table: &str) -> (r: Result<String, NatError>)
    ensures
        match r {
            Ok(s) => default_iface_of(table@) == Some(s@),
            Err(e) => default_iface_of(table@) is None && e == NatError::NoDefaultRoute,
        },
{
    let v: Vec<char> = chars_of(table);
    let mut found: Option<String> = None;
    let mut heading: bool = true;
    let mut start: usize = 0;
    let mut i: usize = 0;
    let ghost mut done: Seq<Seq<char>> = Seq::empty();
    assert(table@.take(0) =~= Seq::<char>::empty());
    assert(table@.subrange(0, 0) =~= Seq::<char>::empty());
    assert(lines(table@.take(0)) =~= done.push(table@.subrange(0, 0)));
    while i < v.len()
        invariant
            start <= i <= v@.len(),
            v@ == table@,
            heading == (done.len() == 0),
            match found {
                Some(s) => !heading && default_iface(done.skip(1)) == Some(s@),
                None => heading || default_iface(done.skip(1)) is None,
            },
            lines(table@.take(i as int)) == done.push(table@.subrange(start as int, i as int)),
        decreases v@.len() - i,
    {
        let ghost now = table@.take(i + 1);
        let ghost line = table@.subrange(start as int, i as int);
        assert(now.drop_last() =~= table@.take(i as int));
        assert(now.last() == v@[i as int]);
        assert(done.push(line).drop_last() =~= done);
        if v[i] == '\n' {
            if heading {
                heading = false;
                assert(done.push(line).skip(1) =~= Seq::<Seq<char>>::empty());
            } else {
                assert(done.push(line).skip(1) =~= done.skip(1).push(line));
                assert(done.skip(1).push(line).drop_last() =~= done.skip(1));
                if found.is_none() {
                    found = line_iface(table, &v, start, i);
                }
            }
            proof {
                done = done.push(line);
                assert(table@.subrange(i + 1, i + 1) =~= Seq::<char>::empty());
            }
            start = i + 1;
        } else {
            assert(table@.subrange(start as int, i + 1) =~= line.push(v@[i as int]));
        }
        i += 1;
    }
    proof {
        let line = table@.subrange(start as int, i as int);
        assert(table@.take(i as int) =~= table@);
        if heading {
            assert(done.push(line).skip(1) =~= Seq::<Seq<char>>::empty());
        } else {
            assert(done.push(line).skip(1) =~= done.skip(1).push(line));
            assert(done.skip(1).push(line).drop_last() =~= done.skip(1));
        }
    }
    if !heading && found.is_none() {
        found = line_iface(table, &v, start, i);
    }
    match found {
        Some(s) => Ok(s),
        None => Err(NatError::NoDefaultRoute),
    }
}

/// Whether forwarding is on, from the text of the kernel's setting.
pub fn parse_ip_forward(setting: &str) -> (on: bool)
    ensures
        on == (trimmed(setting@) == "1"@),
        on == is_forwarding(setting@),
{
    let v: Vec<char> = chars_of(setting);
    let (a, b) = trim_range(&v, 0, v.len());
    assert(v@.subrange(0, v@.len() as int) =~= v@);
    let text: String = copy_text(setting, a, b);
    same_text(text.as_str(), "1")
}

/// The text that turns forwarding on or off.
pub fn ip_forward_setting(on: bool) -> (s: String)
    ensures
        s@ == if on {
            "1\n"@
        } else {
            "0\n"@
        },
{
    if on {
        "1\n".to_string()
    } else {
        "0\n".to_string()
    }
}

/// The outside interface: the configured one, or that of the default route.
pub open spec fn outside_iface(cfg: ServerConfig, table: Seq<char>) -> Option<Seq<char>> {
    match cfg.wan_iface {
        Some(iface) => Some(iface@),
        None => default_iface_of(table),
    }
}

/// Whether and how client traffic is to be masqueraded. `table` is the text of
/// the routing table, which counts only where no interface is configured;
/// `prior` is whether forwarding is on, if that is known.
pub fn plan(cfg: &ServerConfig, table: &str, prior: Option<bool>) -> (r: Result<
    Option<(NatGuard, Vec<NatStep>)>,
    NatError,
>)
    ensures
        match r {
            Ok(None) => !cfg.enable_nat,
            Ok(Some((guard, steps))) => {
                let wan = outside_iface(*cfg, table@);
                let cidr = cidr_text(cfg.tun_ip->V4_0, cfg.tun_netmask->V4_0);
                &&& cfg.enable_nat
                &&& wan is Some
                &&& cfg.tun_ip is V4
                &&& cfg.tun_netmask is V4
                &&& guard.tun_iface@ == cfg.tun_name@
                &&& guard.wan_iface@ == wan->0
                &&& guard.cidr@ == cidr
                &&& guard.prior_ip_forward == prior
                &&& steps_view(steps@) == setup_steps(cfg.tun_name@, wan->0, cidr, prior)
            },
            Err(NatError::NoDefaultRoute) => cfg.enable_nat && outside_iface(*cfg, table@) is None,
            Err(NatError::TunIpNotV4) => cfg.enable_nat && outside_iface(*cfg, table@) is Some
                && !(cfg.tun_ip is V4),
            Err(NatError::NetmaskNotV4) => cfg.enable_nat && outside_iface(*cfg, table@) is Some
                && cfg.tun_ip is V4 && !(cfg.tun_netmask is V4),
        },
        match r {
            Ok(None) => planned(*cfg, table@) == Ok::<Option<(Seq<char>, Seq<char>)>, NatError>(
                None,
            ),
            Ok(Some((guard, steps))) => planned(*cfg, table@) == Ok::<
                Option<(Seq<char>, Seq<char>)>,
                NatError,
            >(Some((guard.wan_iface@, guard.cidr@))),
            Err(e) => planned(*cfg, table@) == Err::<Option<(Seq<char>, Seq<char>)>, NatError>(e),
        },
{
    if !cfg.enable_nat {
        return Ok(None);
    }
    let wan: String = match &cfg.wan_iface {
        Some(iface) => iface.as_str().to_string(),
        None => match detect_default_route_iface(table) {
            Ok(iface) => iface,
            Err(e) => return Err(e),
        },
    };
    let ip: u32 = match cfg.tun_ip {
        IpAddress::V4(ip) => ip,
        IpAddress::V6(_) => return Err(NatError::TunIpNotV4),
    };
    let mask: u32 = match cfg.tun_netmask {
        IpAddress::V4(mask) => mask,
        IpAddress::V6(_) => return Err(NatError::NetmaskNotV4),
    };
    Ok(Some(enable_masquerade(cfg.tun_name.as_str(), wan.as_str(), ip, mask, prior)))
}

/// Tearing down removes the rules that setting up installs, in the reverse
/// order, and nothing else; forwarding is what it was before, if that is
/// known.
pub proof fn law_cleanup_undoes_setup(
    tun: Seq<char>,
    wan: Seq<char>,
    cidr: Seq<char>,
    prior: Option<bool>,
    i: int,
)
    requires
        0 <= i < 3,
    ensures
        ({
            let setup = setup_steps(tun, wan, cidr, prior);
            let cleanup = cleanup_steps(tun, wan, cidr, prior);
            let installed = setup[setup.len() - 3 + i];
            let removed = cleanup[2 - i];
            &&& installed.required
            &&& installed == rule_steps("-A"@, tun, wan, cidr, true)[i]
            &&& removed == rule_steps("-D"@, tun, wan, cidr, false)[i]
            &&& cleanup.len() == 3 + (if prior is Some {
                1int
            } else {
                0
            })
            &&& prior matches Some(on) ==> cleanup[3].action == ActionView::SetIpForward(on)
        }),
{
}

/// The prefix length of a mask that has one.
proof fn lemma_leading_ones(bits: u32)
    requires
        bits <= 32,
    ensures
        u32_leading_ones(mask_of(bits)) == bits,
{
    let m = mask_of(bits);
    vstd::std_specs::bits::axiom_u32_leading_ones(m);
    let n = u32_leading_ones(m);
    if n > bits {
        let j = (31 - bits) as u32;
        law_mask_bits(bits, j);
        assert((m >> j) & 1u32 == 1u32);
    }
    if n < bits {
        let j = (31 - n) as u32;
        law_mask_bits(bits, j);
        assert((m >> j) & 1u32 == 0u32);
    }
}

/// The network of an address under the mask of a prefix length is written as a
/// CIDR that reads back as that network and that mask.
pub proof fn law_cidr_round_trip(ip: u32, bits: u32)
    requires
        bits <= 32,
    ensures
        route_of(cidr_text(ip, mask_of(bits))) == Some(
            (ipv4_text(ip & mask_of(bits)), mask_of(bits)),
        ),
{
    let net = ipv4_text(ip & mask_of(bits));
    let s = cidr_text(ip, mask_of(bits));
    lemma_leading_ones(bits);
    lemma_ipv4_text_chars(ip & mask_of(bits));
    law_decimal_round_trip(bits);
    reveal_strlit("/");
    assert("/"@ =~= seq!['/']);
    let n = net.len() as int;
    assert(s[n] == '/');
    s.index_of_first_ensures('/');
    assert(s.contains('/'));
    let k = s.index_of_first('/')->0;
    if k < n {
        assert(s[k] == net[k]);
    }
    assert(s.take(n) =~= net);
    assert(s.skip(n + 1) =~= decimal(bits as nat));
}

/// What is removed is what was installed: rule by rule the same arguments, but
/// for `-D` in the place of `-A`. The rules of an earlier run that are removed
/// first are the same ones.
pub proof fn law_removed_is_installed(
    tun: Seq<char>,
    wan: Seq<char>,
    cidr: Seq<char>,
    prior: Option<bool>,
    i: int,
    k: int,
)
    requires
        0 <= i < 3,
        tun != "-A"@,
        wan != "-A"@,
        cidr != "-A"@,
    ensures
        ({
            let setup = setup_steps(tun, wan, cidr, prior);
            let cleanup = cleanup_steps(tun, wan, cidr, prior);
            let installed = setup[setup.len() - 3 + i];
            let stale = setup[setup.len() - 6 + i];
            let removed = cleanup[2 - i];
            &&& installed.required && !stale.required && !removed.required
            &&& removed == stale
            &&& installed.action matches ActionView::Iptables(a) && (
            removed.action matches ActionView::Iptables(b) && a.len() == b.len() && (0 <= k
                < a.len() ==> b[k] == if a[k] == "-A"@ {
                "-D"@
            } else {
                a[k]
            }))
        }),
{
    reveal_strlit("-A");
    reveal_strlit("-D");
    reveal_strlit("-t");
    reveal_strlit("-s");
    reveal_strlit("-o");
    reveal_strlit("-i");
    reveal_strlit("-j");
    reveal_strlit("-m");
    reveal_strlit("nat");
    reveal_strlit("state");
    reveal_strlit("--state");
    reveal_strlit("FORWARD");
    reveal_strlit("POSTROUTING");
    reveal_strlit("MASQUERADE");
    reveal_strlit("ACCEPT");
    reveal_strlit("RELATED,ESTABLISHED");
    assert("-A"@[1] == 'A');
    assert("-t"@[1] == 't' && "-s"@[1] == 's' && "-o"@[1] == 'o' && "-i"@[1] == 'i' && "-j"@[1]
        == 'j' && "-m"@[1] == 'm');
    assert("-D"@[1] == 'D');
}

/// What the rules say. What comes from the tunnel's network and leaves through
/// the outside interface is masqueraded; what comes from the tunnel may go out
/// there; and what comes from there may go to the tunnel if it belongs to a
/// connection that exists.
pub proof fn law_rules(tun: Seq<char>, wan: Seq<char>, cidr: Seq<char>, prior: Option<bool>)
    ensures
        ({
            let setup = setup_steps(tun, wan, cidr, prior);
            let n = setup.len() as int;
            &&& n == if prior == Some(true) {
                6int
            } else {
                7
            }
            &&& prior != Some(true) ==> setup[0].action == ActionView::SetIpForward(true)
                && setup[0].required
            &&& setup[n - 3].action matches ActionView::Iptables(a) && a.len() == 10 && a[0] == "-t"@
                && a[1] == "nat"@ && a[2] == "-A"@ && a[3] == "POSTROUTING"@ && a[4] == "-s"@ && a[5]
                == cidr && a[6] == "-o"@ && a[7] == wan && a[8] == "-j"@ && a[9] == "MASQUERADE"@
            &&& setup[n - 2].action matches ActionView::Iptables(a) && a.len() == 8 && a[0] == "-A"@
                && a[1] == "FORWARD"@ && a[2] == "-i"@ && a[3] == tun && a[4] == "-o"@ && a[5] == wan
                && a[6] == "-j"@ && a[7] == "ACCEPT"@
            &&& setup[n - 1].action matches ActionView::Iptables(a) && a.len() == 12 && a[0] == "-A"@
                && a[1] == "FORWARD"@ && a[2] == "-i"@ && a[3] == wan && a[4] == "-o"@ && a[5] == tun
                && a[6] == "-m"@ && a[7] == "state"@ && a[8] == "--state"@ && a[9]
                == "RELATED,ESTABLISHED"@ && a[10] == "-j"@ && a[11] == "ACCEPT"@
        }),
        ({
            let cleanup = cleanup_steps(tun, wan, cidr, prior);
            &&& cleanup.len() == if prior is Some {
                4int
            } else {
                3
            }
            &&& prior matches Some(on) ==> cleanup[3].action == ActionView::SetIpForward(on)
                && !cleanup[3].required
        }),
{
}

/// The network of an address: the address with the bits of the mask, and behind
/// a slash how many one bits the mask has from the top, up to its first zero.
pub proof fn law_network(ip: u32, mask: u32, bits: u32)
    requires
        bits <= 32,
        forall|j: u32| 32 - bits <= j < 32 ==> #[trigger] (mask >> j) & 1 == 1,
        bits < 32 ==> (mask >> ((31 - bits) as u32)) & 1 == 0,
    ensures
        cidr_text(ip, mask) == ipv4_text(ip & mask) + seq!['/'] + decimal(bits as nat),
{
    reveal_strlit("/");
    assert("/"@ =~= seq!['/']);
    vstd::std_specs::bits::axiom_u32_leading_ones(mask);
    let n = u32_leading_ones(mask);
    if n > bits {
        let j = (31 - bits) as u32;
        assert((mask >> j) & 1u32 == 1u32);
    }
    if n < bits {
        let j = (31 - n) as u32;
        assert((mask >> j) & 1u32 == 0u32);
    }
}

/// The outside interface is the configured one; without one, that of the first
/// line of the table behind its heading that has eight columns or more and
/// zeros for its destination, named in the first column; and there is none
/// where no line is such.
pub proof fn law_outside_interface(cfg: ServerConfig, table: Seq<char>, k: int)
    ensures
        cfg.wan_iface matches Some(iface) ==> outside_iface(cfg, table) == Some(iface@),
        cfg.wan_iface is None && 1 <= k < lines(table).len() && words(lines(table)[k]).len() >= 8
            && words(lines(table)[k])[1] == "00000000"@ && (forall|j: int|
            1 <= j < k ==> !(words(#[trigger] lines(table)[j]).len() >= 8 && words(lines(table)[j])[1]
                == "00000000"@)) ==> outside_iface(cfg, table) == Some(words(lines(table)[k])[0]),
        cfg.wan_iface is None && (forall|j: int|
            1 <= j < lines(table).len() ==> !(words(#[trigger] lines(table)[j]).len() >= 8 && words(
                lines(table)[j],
            )[1] == "00000000"@)) ==> outside_iface(cfg, table) is None,
{
    let rest = lines(table).skip(1);
    if cfg.wan_iface is None {
        if 1 <= k < lines(table).len() && words(lines(table)[k]).len() >= 8 && words(
            lines(table)[k],
        )[1] == "00000000"@ && (forall|j: int|
            1 <= j < k ==> !(words(#[trigger] lines(table)[j]).len() >= 8 && words(lines(table)[j])[1]
                == "00000000"@)) {
            assert(rest[k - 1] == lines(table)[k]);
            assert forall|j: int| 0 <= j < k - 1 implies !is_default_line(#[trigger] rest[j]) by {
                assert(rest[j] == lines(table)[j + 1]);
            }
            lemma_first_default(rest, k - 1);
        }
        if forall|j: int|
            1 <= j < lines(table).len() ==> !(words(#[trigger] lines(table)[j]).len() >= 8 && words(
                lines(table)[j],
            )[1] == "00000000"@) {
            assert forall|j: int| 0 <= j < rest.len() implies !is_default_line(
                #[trigger] rest[j],
            ) by {
                assert(rest[j] == lines(table)[j + 1]);
            }
            lemma_no_default(rest);
        }
    }
}

/// The first default route among some lines.
proof fn lemma_first_default(lines: Seq<Seq<char>>, k: int)
    requires
        0 <= k < lines.len(),
        is_default_line(lines[k]),
        forall|j: int| 0 <= j < k ==> !is_default_line(#[trigger] lines[j]),
    ensures
        default_iface(lines) == Some(words(lines[k])[0]),
    decreases lines.len(),
{
    let init = lines.drop_last();
    if k < init.len() {
        assert(init[k] == lines[k]);
        assert forall|j: int| 0 <= j < k implies !is_default_line(#[trigger] init[j]) by {
            assert(init[j] == lines[j]);
        }
        lemma_first_default(init, k);
    } else {
        assert forall|j: int| 0 <= j < init.len() implies !is_default_line(#[trigger] init[j]) by {
            assert(init[j] == lines[j]);
        }
        lemma_no_default(init);
    }
}

/// No default route among some lines.
proof fn lemma_no_default(lines: Seq<Seq<char>>)
    requires
        forall|j: int| 0 <= j < lines.len() ==> !is_default_line(#[trigger] lines[j]),
    ensures
        default_iface(lines) is None,
    decreases lines.len(),
{
    if lines.len() > 0 {
        let init = lines.drop_last();
        assert(!is_default_line(lines[lines.len() - 1]));
        assert forall|j: int| 0 <= j < init.len() implies !is_default_line(#[trigger] init[j]) by {
            assert(init[j] == lines[j]);
        }
        lemma_no_default(init);
    }
}

/// Whether the text of the kernel's setting says that forwarding is on.
pub open spec fn is_forwarding(setting: Seq<char>) -> bool {
    trimmed(setting) == "1"@
}

/// Forwarding is on if the setting is a 1, with white space around it or not,
/// and off for any other number.
pub proof fn law_forwarding(before: Seq<char>, c: char, after: Seq<char>)
    requires
        forall|i: int| 0 <= i < before.len() ==> crate::text::is_white(#[trigger] before[i]),
        forall|i: int| 0 <= i < after.len() ==> crate::text::is_white(#[trigger] after[i]),
        crate::text::is_digit(c),
    ensures
        is_forwarding(before + seq![c] + after) <==> c == '1',
{
    crate::text::law_trimmed(before, seq![c], after);
    reveal_strlit("1");
    assert("1"@ =~= seq!['1']);
    if seq![c] == seq!['1'] {
        assert(seq![c][0] == seq!['1'][0]);
    }
}

/// The outside interface and the network that are to be masqueraded; nothing
/// where that is switched off.
pub open spec fn planned(cfg: ServerConfig, table: Seq<char>) -> Result<
    Option<(Seq<char>, Seq<char>)>,
    NatError,
> {
    if !cfg.enable_nat {
        Ok(None)
    } else {
        match outside_iface(cfg, table) {
            None => Err(NatError::NoDefaultRoute),
            Some(wan) => match (cfg.tun_ip, cfg.tun_netmask) {
                (IpAddress::V6(_), _) => Err(NatError::TunIpNotV4),
                (_, IpAddress::V6(_)) => Err(NatError::NetmaskNotV4),
                (IpAddress::V4(ip), IpAddress::V4(mask)) => Ok(Some((wan, cidr_text(ip, mask)))),
            },
        }
    }
}

/// Traffic is masqueraded exactly where that is switched on, through the
/// outside interface, for the tunnel's own network; a tunnel that is not IPv4
/// has none, and without an outside interface it cannot be.
pub proof fn law_planned(cfg: ServerConfig, table: Seq<char>, wan: Seq<char>, ip: u32, mask: u32)
    ensures
        !cfg.enable_nat <==> planned(cfg, table) == Ok::<
            Option<(Seq<char>, Seq<char>)>,
            NatError,
        >(None),
        cfg.enable_nat && outside_iface(cfg, table) is None ==> planned(cfg, table) == Err::<
            Option<(Seq<char>, Seq<char>)>,
            NatError,
        >(NatError::NoDefaultRoute),
        cfg.enable_nat && outside_iface(cfg, table) == Some(wan) && cfg.tun_ip == IpAddress::V4(ip)
            && cfg.tun_netmask == IpAddress::V4(mask) ==> planned(cfg, table) == Ok::<
            Option<(Seq<char>, Seq<char>)>,
            NatError,
        >(Some((wan, cidr_text(ip, mask)))),
        cfg.tun_ip is V6 || cfg.tun_netmask is V6 ==> !(planned(cfg, table) matches Ok(Some(_))),
{
}

} // verus!
