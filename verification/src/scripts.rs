//! The shell programs sent to a machine: the idempotent cleanup script,
//! the configuration script that feeds the generated programs to `ip`,
//! `tc` and `nft`, and the address listing probe.

use vstd::multiset::Multiset;
use vstd::prelude::*;

use crate::address_plan::{addr_text, append_addr, OverlayAddress};
use crate::config::MachineConfig;
use crate::machine::Machine;

verus! {

/// One line of a batch: the command text and a newline.
pub open spec fn joined_lines(lines: Seq<Seq<char>>, j: int) -> Seq<char>
    decreases j,
{
    if j <= 0 {
        Seq::empty()
    } else {
        joined_lines(lines, j - 1) + lines[j - 1] + "\n"@
    }
}

/// Appends every line of `lines` followed by a newline.
#[verifier::loop_isolation(false)]
fn append_lines(s: &mut String, lines: &Vec<String>)
    ensures
        final(s)@ == old(s)@ + joined_lines(crate::config::views_of(lines@), lines@.len() as int),
{
    let ghost base = old(s)@;
    let ghost lv = crate::config::views_of(lines@);
    let mut j: usize = 0;
    proof {
        assert(s@ =~= base + joined_lines(lv, 0));
    }
    while j < lines.len()
        invariant
            j <= lines@.len(),
            s@ == base + joined_lines(lv, j as int),
        decreases lines@.len() - j,
    {
        s.append(lines[j].as_str());
        s.append("\n");
        proof {
            assert(lines@[j as int]@ == lv[j as int]);
            assert(s@ =~= base + joined_lines(lv, j + 1));
        }
        j += 1;
    }
}

/// The idempotent cleanup program of one machine: drop the overlay route
/// and addresses, the traffic-control state on the interface and loopback,
/// and the firewall table, each step tolerating absence.
pub open spec fn spec_clean_script(iface: Seq<char>) -> Seq<char> {
    "ip route del 10.0.0.0/8 dev "@ + iface + " || true\n"@ + "ip addr show "@ + iface
        + " | grep -oE '10\\.[0-9]+\\.[0-9]+\\.[0-9]+/32' | sed 's/\\(.*\\)/addr del \\1 dev "@
        + iface + "/' | ip -b -\n"@ + "tc qdisc del dev "@ + iface
        + " root 2>/dev/null || true\n"@ + "tc qdisc del dev "@ + iface
        + " ingress 2>/dev/null || true\n"@ + "tc qdisc del dev lo root 2>/dev/null || true\n"@
        + "tc qdisc del dev lo ingress 2>/dev/null || true\n"@
        + "nft delete table oar-p2p 2>/dev/null || true\n"@
}

/// Builds the cleanup program for `machine`.
pub fn machine_clean_script(machine: Machine) -> (s: String)
    requires
        machine.has_interface(),
    ensures
        s@ == spec_clean_script(machine.spec_interface()),
{
    let iface = machine.interface();
    let mut s = String::from_str("ip route del 10.0.0.0/8 dev ");
    s.append(iface);
    s.append(" || true\n");
    s.append("ip addr show ");
    s.append(iface);
    s.append(" | grep -oE '10\\.[0-9]+\\.[0-9]+\\.[0-9]+/32' | sed 's/\\(.*\\)/addr del \\1 dev ");
    s.append(iface);
    s.append("/' | ip -b -\n");
    s.append("tc qdisc del dev ");
    s.append(iface);
    s.append(" root 2>/dev/null || true\n");
    s.append("tc qdisc del dev ");
    s.append(iface);
    s.append(" ingress 2>/dev/null || true\n");
    s.append("tc qdisc del dev lo root 2>/dev/null || true\n");
    s.append("tc qdisc del dev lo ingress 2>/dev/null || true\n");
    s.append("nft delete table oar-p2p 2>/dev/null || true\n");
    proof {
        assert(s@ =~= spec_clean_script(machine.spec_interface()));
    }
    s
}

/// The configuration program of one machine: the ip batch, the tc batch,
/// then the nft script, each fed to its tool on standard input.
pub open spec fn spec_configuration_script(
    ip_lines: Seq<Seq<char>>,
    tc_lines: Seq<Seq<char>>,
    nft: Seq<char>,
) -> Seq<char> {
    "cat << EOF | ip -b -\n"@ + joined_lines(ip_lines, ip_lines.len() as int) + "\nEOF\n"@
        + "cat << EOF | tc -b -\n"@ + joined_lines(tc_lines, tc_lines.len() as int) + "\nEOF\n"@
        + "cat << EOF | nft -f -\n"@ + nft + "\nEOF\n"@
}

/// Builds the configuration program of one machine's config.
pub fn machine_configuration_script(config: &MachineConfig) -> (s: String)
    ensures
        s@ == spec_configuration_script(
            crate::config::views_of(config.ip_commands@),
            crate::config::views_of(config.tc_commands@),
            config.nft_script@,
        ),
{
    let mut s = String::from_str("cat << EOF | ip -b -\n");
    append_lines(&mut s, &config.ip_commands);
    s.append("\nEOF\n");
    s.append("cat << EOF | tc -b -\n");
    append_lines(&mut s, &config.tc_commands);
    s.append("\nEOF\n");
    s.append("cat << EOF | nft -f -\n");
    s.append(config.nft_script.as_str());
    s.append("\nEOF\n");
    proof {
        assert(s@ =~= spec_configuration_script(
            crate::config::views_of(config.ip_commands@),
            crate::config::views_of(config.tc_commands@),
            config.nft_script@,
        ));
    }
    s
}

/// The probe that lists the overlay addresses installed on the interface.
pub open spec fn spec_list_addresses_script(iface: Seq<char>) -> Seq<char> {
    "ip addr show "@ + iface + " | grep -oE '10\\.[0-9]+\\.[0-9]+\\.[0-9]+'"@
}

/// Builds the address listing probe for `machine`.
pub fn list_addresses_script(machine: Machine) -> (s: String)
    requires
        machine.has_interface(),
    ensures
        s@ == spec_list_addresses_script(machine.spec_interface()),
{
    let mut s = String::from_str("ip addr show ");
    s.append(machine.interface());
    s.append(" | grep -oE '10\\.[0-9]+\\.[0-9]+\\.[0-9]+'");
    proof {
        assert(s@ =~= spec_list_addresses_script(machine.spec_interface()));
    }
    s
}


/// The sort key of one listing row: the machine's registry index first,
/// then the address numerically, octet by octet.
pub open spec fn listing_key(p: (Machine, OverlayAddress)) -> int {
    p.0.spec_index() * 4294967296 + p.1.a * 16777216 + p.1.b * 65536 + p.1.c * 256 + p.1.d
}

/// Computes the sort key of one listing row.
fn listing_key_exec(p: &(Machine, OverlayAddress)) -> (r: u64)
    ensures
        r == listing_key(*p),
{
    proof {
        crate::machine::lemma_machine_index_bound(p.0);
    }
    (p.0.index() as u64) * 4294967296 + (p.1.a as u64) * 16777216 + (p.1.b as u64) * 65536 + (
    p.1.c as u64) * 256 + (p.1.d as u64)
}

/// Sorts the listing rows in place: machines in registry order, addresses
/// numerically within one machine. The rows stay a permutation of the
/// input.
#[verifier::loop_isolation(false)]
pub fn sort_listing(pairs: &mut Vec<(Machine, OverlayAddress)>)
    ensures
        final(pairs)@.len() == old(pairs)@.len(),
        forall|i: int, j: int|
            0 <= i < j < final(pairs)@.len() ==> listing_key(#[trigger] final(pairs)@[i])
                <= listing_key(#[trigger] final(pairs)@[j]),
        final(pairs)@.to_multiset() == old(pairs)@.to_multiset(),
{
    broadcast use vstd::seq_lib::group_to_multiset_ensures;

    let n = pairs.len();
    if n < 2 {
        return ;
    }
    let mut i: usize = 1;
    while i < n
        invariant
            1 <= i <= n,
            pairs@.len() == n,
            forall|a: int, b: int|
                0 <= a < b < i ==> listing_key(#[trigger] pairs@[a]) <= listing_key(
                    #[trigger] pairs@[b],
                ),
            pairs@.to_multiset() == old(pairs)@.to_multiset(),
        decreases n - i,
    {
        let ghost prev = pairs@;
        let x = pairs.remove(i);
        let ghost s1 = pairs@;
        proof {
            assert(x == prev[i as int]);
            assert(s1 =~= prev.remove(i as int));
            assert(s1.to_multiset() == prev.to_multiset().remove(x));
        }
        let mut p: usize = i;
        while p > 0 && listing_key_exec(&pairs[p - 1]) > listing_key_exec(&x)
            invariant
                p <= i,
                pairs@ == s1,
                forall|q: int| p <= q < i ==> listing_key(#[trigger] s1[q]) > listing_key(x),
            decreases p,
        {
            p -= 1;
        }
        pairs.insert(p, x);
        proof {
            let nw = pairs@;
            assert(nw =~= s1.insert(p as int, x));
            // the moved row keeps the multiset
            assert(nw =~= s1.take(p as int) + seq![x] + s1.skip(p as int));
            assert(s1 =~= s1.take(p as int) + s1.skip(p as int));
            vstd::seq_lib::lemma_multiset_commutative(
                s1.take(p as int) + seq![x],
                s1.skip(p as int),
            );
            vstd::seq_lib::lemma_multiset_commutative(s1.take(p as int), seq![x]);
            vstd::seq_lib::lemma_multiset_commutative(s1.take(p as int), s1.skip(p as int));
            assert(seq![x] =~= Seq::<(Machine, OverlayAddress)>::empty().push(x));
            assert(Seq::<(Machine, OverlayAddress)>::empty().to_multiset() =~= Multiset::<(
                Machine,
                OverlayAddress,
            )>::empty()) by {
                assert(Seq::<(Machine, OverlayAddress)>::empty().to_multiset().len() == 0);
            }
            assert(seq![x].to_multiset() =~= Multiset::<(Machine, OverlayAddress)>::empty().insert(
                x,
            ));
            assert(nw.to_multiset() =~= s1.to_multiset().insert(x));
            assert(prev.to_multiset().count(x) >= 1) by {
                assert(prev.contains(x)) by {
                    assert(prev[i as int] == x);
                }
            }
            assert(nw.to_multiset() =~= prev.to_multiset());

            // the grown prefix is sorted
            assert forall|a: int, b: int|
                0 <= a < b < i + 1 implies listing_key(#[trigger] nw[a]) <= listing_key(
                #[trigger] nw[b],
            ) by {
                if b < p {
                    assert(nw[a] == s1[a] && nw[b] == s1[b]);
                } else if b == p {
                    assert(nw[b] == x);
                    assert(nw[a] == s1[a]);
                    assert(listing_key(s1[p - 1]) <= listing_key(x));
                    assert(listing_key(s1[a]) <= listing_key(s1[p - 1]));
                } else {
                    assert(nw[b] == s1[b - 1]);
                    if a < p {
                        assert(nw[a] == s1[a]);
                        if a < b - 1 {
                            assert(listing_key(s1[a]) <= listing_key(s1[b - 1]));
                        }
                    } else if a == p {
                        assert(nw[a] == x);
                        if b - 1 < i {
                            assert(listing_key(s1[b - 1]) > listing_key(x));
                        }
                    } else {
                        assert(nw[a] == s1[a - 1]);
                        assert(listing_key(s1[a - 1]) <= listing_key(s1[b - 1]));
                    }
                }
            }
        }
        i += 1;
    }
}

/// One row of the address listing: the hostname, a space, the address.
pub fn listing_line(machine: Machine, addr: &OverlayAddress) -> (s: String)
    ensures
        s@ == machine.spec_hostname() + " "@ + addr_text(*addr),
{
    let mut s = String::from_str(machine.hostname());
    s.append(" ");
    append_addr(&mut s, addr);
    proof {
        assert(s@ =~= machine.spec_hostname() + " "@ + addr_text(*addr));
    }
    s
}

} // verus!
