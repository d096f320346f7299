//! The configuration synthesiser: for each machine of an address plan, the
//! IP address program, the traffic-control program on loopback and on the
//! machine's interface, and the firewall mark map, all derived from the
//! latency matrix.
//!
//! Latencies are bucketed by whole milliseconds in first-seen enumeration
//! order; the bucket position fixes the tc class id, the netem handle and
//! the firewall mark together.

use vstd::prelude::*;

use crate::address_plan::{AddressPlan, OverlayAddress, PlanningError, addr_text, append_addr,
    machine_address_for_idx, overlay_addr};
use crate::latency_matrix::LatencyMatrix;
use crate::machine::Machine;
use crate::text::{append_dec_u64, append_dec_usize, dec_digits};

verus! {

/// The ordered pairs `(src, dst)` with `src` fixed and `dst` running over
/// `0..t`, the diagonal left out.
pub open spec fn row_pairs(src: int, t: int) -> Seq<(int, int)>
    decreases t,
{
    if t <= 0 {
        Seq::empty()
    } else if t - 1 == src {
        row_pairs(src, t - 1)
    } else {
        row_pairs(src, t - 1).push((src, t - 1))
    }
}

/// The ordered pairs of a machine's block: sources `off..off + c`, each
/// against every other global index below `total`.
pub open spec fn machine_pairs(off: int, c: int, total: int) -> Seq<(int, int)>
    decreases c,
{
    if c <= 0 {
        Seq::empty()
    } else {
        machine_pairs(off, c - 1, total) + row_pairs(off + c - 1, total)
    }
}

/// The latency of the pair `(src, dst)` in whole milliseconds, truncated.
pub open spec fn pair_ms(nanos: Seq<u64>, dim: int, src: int, dst: int) -> u64 {
    (nanos[src * dim + dst] / 1000000) as u64
}

/// The distinct pair latencies in first-seen enumeration order.
pub open spec fn bucket_list(nanos: Seq<u64>, dim: int, ps: Seq<(int, int)>) -> Seq<u64>
    decreases ps.len(),
{
    if ps.len() == 0 {
        Seq::empty()
    } else {
        let pre = bucket_list(nanos, dim, ps.drop_last());
        let v = pair_ms(nanos, dim, ps.last().0, ps.last().1);
        if pre.contains(v) {
            pre
        } else {
            pre.push(v)
        }
    }
}

/// The pairs of `ps` whose latency rounds to `v`, in order.
pub open spec fn matching_pairs(nanos: Seq<u64>, dim: int, ps: Seq<(int, int)>, v: u64) -> Seq<
    (int, int),
>
    decreases ps.len(),
{
    if ps.len() == 0 {
        Seq::empty()
    } else {
        let pre = matching_pairs(nanos, dim, ps.drop_last(), v);
        if pair_ms(nanos, dim, ps.last().0, ps.last().1) == v {
            pre.push(ps.last())
        } else {
            pre
        }
    }
}

/// `route add 10.0.0.0/8 dev <iface>`
pub open spec fn route_line(iface: Seq<char>) -> Seq<char> {
    "route add 10.0.0.0/8 dev "@ + iface
}

/// `addr add <address>/32 dev <iface>`
pub open spec fn addr_line(iface: Seq<char>, ad: OverlayAddress) -> Seq<char> {
    "addr add "@ + addr_text(ad) + "/32 dev "@ + iface
}

/// The address program: the route, then one line per address in order.
pub open spec fn ip_addr_lines(iface: Seq<char>, addrs: Seq<OverlayAddress>, j: int) -> Seq<
    Seq<char>,
>
    decreases j,
{
    if j <= 0 {
        Seq::empty()
    } else {
        ip_addr_lines(iface, addrs, j - 1).push(addr_line(iface, addrs[j - 1]))
    }
}

/// The whole address program of one machine.
pub open spec fn ip_lines(iface: Seq<char>, addrs: Seq<OverlayAddress>) -> Seq<Seq<char>> {
    seq![route_line(iface)] + ip_addr_lines(iface, addrs, addrs.len() as int)
}

/// `qdisc add dev <iface> root handle 1: htb default 9999`
pub open spec fn qdisc_root_line(iface: Seq<char>) -> Seq<char> {
    "qdisc add dev "@ + iface + " root handle 1: htb default 9999"@
}

/// `class add dev <iface> parent 1: classid 1:<k> htb rate 10gbit`
pub open spec fn class_line(iface: Seq<char>, k: int) -> Seq<char> {
    "class add dev "@ + iface + " parent 1: classid 1:"@ + dec_digits(k as nat)
        + " htb rate 10gbit"@
}

/// The default class: the class line with id `9999`.
pub open spec fn default_class_line(iface: Seq<char>) -> Seq<char> {
    class_line(iface, 9999)
}

/// `qdisc add dev <iface> parent 1:<k> handle <k + 1>: netem delay <ms>ms`
pub open spec fn netem_line(iface: Seq<char>, k: int, ms: u64) -> Seq<char> {
    "qdisc add dev "@ + iface + " parent 1:"@ + dec_digits(k as nat) + " handle "@ + dec_digits(
        (k + 1) as nat,
    ) + ": netem delay "@ + dec_digits(ms as nat) + "ms"@
}

/// `filter add dev <iface> parent 1:0 prio 1 handle <k> fw flowid 1:<k>`
pub open spec fn filter_line(iface: Seq<char>, k: int) -> Seq<char> {
    "filter add dev "@ + iface + " parent 1:0 prio 1 handle "@ + dec_digits(k as nat)
        + " fw flowid 1:"@ + dec_digits(k as nat)
}

/// The class, netem and filter lines of the first `j` buckets, in order;
/// bucket position `p` carries class id, mark and handle base `p + 1`.
pub open spec fn tc_bucket_lines(iface: Seq<char>, buckets: Seq<u64>, j: int) -> Seq<Seq<char>>
    decreases j,
{
    if j <= 0 {
        Seq::empty()
    } else {
        tc_bucket_lines(iface, buckets, j - 1) + seq![
            class_line(iface, j),
            netem_line(iface, j, buckets[j - 1]),
            filter_line(iface, j),
        ]
    }
}

/// The whole traffic-control program of one interface.
pub open spec fn tc_iface_lines(iface: Seq<char>, buckets: Seq<u64>) -> Seq<Seq<char>> {
    seq![qdisc_root_line(iface), default_class_line(iface)] + tc_bucket_lines(
        iface,
        buckets,
        buckets.len() as int,
    )
}

/// The traffic-control program of one machine: loopback first, then the
/// machine's interface, identically.
pub open spec fn tc_all_lines(iface: Seq<char>, buckets: Seq<u64>) -> Seq<Seq<char>> {
    tc_iface_lines("lo"@, buckets) + tc_iface_lines(iface, buckets)
}

/// `\t\t\t<src> . <dst> : <mark>,\n`
pub open spec fn element_line(src: OverlayAddress, dst: OverlayAddress, mark: int) -> Seq<char> {
    "\t\t\t"@ + addr_text(src) + " . "@ + addr_text(dst) + " : "@ + dec_digits(mark as nat)
        + ",\n"@
}

/// The element lines of the pairs `ms`, all with mark `mark`, in order.
pub open spec fn elems_text(
    ms: Seq<(int, int)>,
    gaddrs: Seq<OverlayAddress>,
    mark: int,
) -> Seq<char>
    decreases ms.len(),
{
    if ms.len() == 0 {
        Seq::empty()
    } else {
        elems_text(ms.drop_last(), gaddrs, mark) + element_line(
            gaddrs[ms.last().0],
            gaddrs[ms.last().1],
            mark,
        )
    }
}

/// The element lines of the first `j` buckets, bucket-major.
pub open spec fn nft_elems(
    nanos: Seq<u64>,
    dim: int,
    gaddrs: Seq<OverlayAddress>,
    ps: Seq<(int, int)>,
    buckets: Seq<u64>,
    j: int,
) -> Seq<char>
    decreases j,
{
    if j <= 0 {
        Seq::empty()
    } else {
        nft_elems(nanos, dim, gaddrs, ps, buckets, j - 1) + elems_text(
            matching_pairs(nanos, dim, ps, buckets[j - 1]),
            gaddrs,
            j,
        )
    }
}

/// The head of the nft script, up to the opening of the element list.
pub open spec fn nft_head() -> Seq<char> {
    "table ip oar-p2p {\n"@ + "\tmap mark_pairs {\n"@ + "\t\ttype ipv4_addr . ipv4_addr : mark\n"@
        + "\t\telements = {\n"@
}

/// The tail of the nft script: the postrouting chain that applies the map.
pub open spec fn nft_tail() -> Seq<char> {
    "\t\t}\n"@ + "\t}\n"@ + "\n"@ + "\tchain postrouting {\n"@
        + "\t\ttype filter hook postrouting priority mangle -1\n"@ + "\t\tpolicy accept\n"@
        + "\t\tmeta mark set ip saddr . ip daddr map @mark_pairs counter\n"@ + "\t}\n"@ + "}\n"@
}

/// The synthesiser's output for one machine.
#[derive(Debug, Clone)]
pub struct MachineConfig {
    pub machine: Machine,
    pub addresses: Vec<OverlayAddress>,
    pub nft_script: String,
    pub tc_commands: Vec<String>,
    pub ip_commands: Vec<String>,
}

/// What the synthesiser promises of the config of machine `i` of the plan.
pub open spec fn config_ok(
    cfg: MachineConfig,
    plan: AddressPlan,
    nanos: Seq<u64>,
    dim: int,
    i: int,
) -> bool {
    let m = plan.machines@[i];
    let off = plan.offsets@[i] as int;
    let cnt = plan.counts@[i] as int;
    let ps = machine_pairs(off, cnt, plan.total as int);
    let buckets = bucket_list(nanos, dim, ps);
    &&& cfg.machine == m
    &&& cfg.addresses@ == plan.global_addresses@.subrange(off, off + cnt)
    &&& cfg.ip_commands.deep_view() == ip_lines(m.spec_interface(), cfg.addresses@)
    &&& cfg.tc_commands.deep_view() == tc_all_lines(m.spec_interface(), buckets)
    &&& cfg.nft_script@ == nft_head() + nft_elems(
        nanos,
        dim,
        plan.global_addresses@,
        ps,
        buckets,
        buckets.len() as int,
    ) + nft_tail()
}

/// Builds `route add 10.0.0.0/8 dev <iface>`.
fn route_line_exec(iface: &str) -> (s: String)
    ensures
        s@ == route_line(iface@),
{
    let mut s = String::from_str("route add 10.0.0.0/8 dev ");
    s.append(iface);
    s
}

/// Builds `addr add <address>/32 dev <iface>`.
fn addr_line_exec(iface: &str, ad: &OverlayAddress) -> (s: String)
    ensures
        s@ == addr_line(iface@, *ad),
{
    let mut s = String::from_str("addr add ");
    append_addr(&mut s, ad);
    s.append("/32 dev ");
    s.append(iface);
    proof {
        assert(s@ =~= addr_line(iface@, *ad));
    }
    s
}

/// Builds the root qdisc line.
fn qdisc_root_line_exec(iface: &str) -> (s: String)
    ensures
        s@ == qdisc_root_line(iface@),
{
    let mut s = String::from_str("qdisc add dev ");
    s.append(iface);
    s.append(" root handle 1: htb default 9999");
    proof {
        assert(s@ =~= qdisc_root_line(iface@));
    }
    s
}

/// Builds the class line of class id `k`.
fn class_line_exec(iface: &str, k: usize) -> (s: String)
    ensures
        s@ == class_line(iface@, k as int),
{
    let mut s = String::from_str("class add dev ");
    s.append(iface);
    s.append(" parent 1: classid 1:");
    append_dec_usize(&mut s, k);
    s.append(" htb rate 10gbit");
    proof {
        assert(s@ =~= class_line(iface@, k as int));
    }
    s
}

/// Builds the netem qdisc line of class id `k` and delay `ms`.
fn netem_line_exec(iface: &str, k: usize, ms: u64) -> (s: String)
    requires
        k < usize::MAX,
    ensures
        s@ == netem_line(iface@, k as int, ms),
{
    let mut s = String::from_str("qdisc add dev ");
    s.append(iface);
    s.append(" parent 1:");
    append_dec_usize(&mut s, k);
    s.append(" handle ");
    append_dec_usize(&mut s, k + 1);
    s.append(": netem delay ");
    append_dec_u64(&mut s, ms);
    s.append("ms");
    proof {
        assert(s@ =~= netem_line(iface@, k as int, ms));
    }
    s
}

/// Builds the filter line of mark and class id `k`.
fn filter_line_exec(iface: &str, k: usize) -> (s: String)
    ensures
        s@ == filter_line(iface@, k as int),
{
    let mut s = String::from_str("filter add dev ");
    s.append(iface);
    s.append(" parent 1:0 prio 1 handle ");
    append_dec_usize(&mut s, k);
    s.append(" fw flowid 1:");
    append_dec_usize(&mut s, k);
    proof {
        assert(s@ =~= filter_line(iface@, k as int));
    }
    s
}

/// Appends `\t\t\t<src> . <dst> : <mark>,\n` to `s`.
fn append_element_line(s: &mut String, src: &OverlayAddress, dst: &OverlayAddress, mark: usize)
    ensures
        final(s)@ == old(s)@ + element_line(*src, *dst, mark as int),
{
    s.append("\t\t\t");
    append_addr(s, src);
    s.append(" . ");
    append_addr(s, dst);
    s.append(" : ");
    append_dec_usize(s, mark);
    s.append(",\n");
    proof {
        assert(s@ =~= old(s)@ + element_line(*src, *dst, mark as int));
    }
}


/// The position of `v` in `buckets`, if present.
fn find_bucket(buckets: &Vec<u64>, v: u64) -> (r: Option<usize>)
    ensures
        r is Some <==> buckets@.contains(v),
        r matches Some(p) ==> p < buckets@.len() && buckets@[p as int] == v,
{
    let mut i: usize = 0;
    while i < buckets.len()
        invariant
            i <= buckets@.len(),
            forall|j: int| 0 <= j < i ==> buckets@[j] != v,
        decreases buckets@.len() - i,
    {
        if buckets[i] == v {
            return Some(i);
        }
        i += 1;
    }
    proof {
        assert(!buckets@.contains(v)) by {
            if buckets@.contains(v) {
                let j = choose|j: int| 0 <= j < buckets@.len() && buckets@[j] == v;
                assert(buckets@[j] != v);
            }
        }
    }
    None
}

/// The character sequences of a string sequence, elementwise.
pub open spec fn views_of(ss: Seq<String>) -> Seq<Seq<char>> {
    Seq::new(ss.len(), |i: int| ss[i]@)
}

/// A string vector's deep view is the elementwise view of its contents.
pub proof fn lemma_deep_view_views(v: &Vec<String>)
    ensures
        v.deep_view() == views_of(v@),
{
    assert(v.deep_view() =~= views_of(v@));
}

/// `views_of` commutes with `push`.
pub proof fn lemma_views_of_push(a: Seq<String>, s: String)
    ensures
        views_of(a.push(s)) == views_of(a).push(s@),
{
    assert(views_of(a.push(s)) =~= views_of(a).push(s@));
}

/// A bucket list never outgrows the pair sequence it came from.
pub proof fn lemma_bucket_list_len(nanos: Seq<u64>, dim: int, ps: Seq<(int, int)>)
    ensures
        bucket_list(nanos, dim, ps).len() <= ps.len(),
    decreases ps.len(),
{
    if ps.len() > 0 {
        lemma_bucket_list_len(nanos, dim, ps.drop_last());
    }
}

/// A row contributes fewer pairs than the total, the diagonal being left
/// out when the source lies in range.
pub proof fn lemma_row_pairs_len(src: int, t: int)
    ensures
        row_pairs(src, t).len() <= if t >= 0 {
            t
        } else {
            0
        },
        0 <= src < t ==> row_pairs(src, t).len() <= t - 1,
    decreases t,
{
    if t > 0 {
        lemma_row_pairs_len(src, t - 1);
    }
}

/// A machine's pair count is bounded by its block size times the number of
/// other addresses.
pub proof fn lemma_machine_pairs_len(off: int, c: int, total: int)
    requires
        0 <= off,
        0 <= c,
        off + c <= total,
    ensures
        machine_pairs(off, c, total).len() <= c * (total - 1),
    decreases c,
{
    if c > 0 {
        lemma_machine_pairs_len(off, c - 1, total);
        lemma_row_pairs_len(off + c - 1, total);
        assert((c - 1) * (total - 1) + (total - 1) == c * (total - 1)) by (nonlinear_arith);
    } else {
        assert(c * (total - 1) == 0) by (nonlinear_arith)
            requires
                c == 0,
        ;
    }
}

/// Emits the traffic-control program for one interface: the root qdisc,
/// the default class, then class, netem and filter lines per bucket.
#[verifier::loop_isolation(false)]
fn emit_tc_for_iface(cmds: &mut Vec<String>, iface: &str, buckets: &Vec<u64>)
    requires
        buckets@.len() + 1 < usize::MAX,
    ensures
        final(cmds).deep_view() == old(cmds).deep_view() + tc_iface_lines(iface@, buckets@),
{
    let ghost base = old(cmds).deep_view();
    let ghost base_ss = old(cmds)@;
    proof {
        lemma_deep_view_views(old(cmds));
    }
    cmds.push(qdisc_root_line_exec(iface));
    let ghost ss1 = cmds@;
    cmds.push(class_line_exec(iface, 9999));
    proof {
        lemma_views_of_push(base_ss, ss1[ss1.len() - 1]);
        lemma_views_of_push(ss1, cmds@[cmds@.len() - 1]);
        lemma_deep_view_views(cmds);
        assert(cmds.deep_view() =~= base + seq![
            qdisc_root_line(iface@),
            default_class_line(iface@),
        ]);
    }
    let nb = buckets.len();
    let mut k: usize = 0;
    while k < nb
        invariant
            k <= nb,
            cmds.deep_view() == base + seq![
                qdisc_root_line(iface@),
                default_class_line(iface@),
            ] + tc_bucket_lines(iface@, buckets@, k as int),
        decreases nb - k,
    {
        let ghost ss0 = cmds@;
        proof {
            lemma_deep_view_views(cmds);
        }
        cmds.push(class_line_exec(iface, k + 1));
        let ghost ss1 = cmds@;
        cmds.push(netem_line_exec(iface, k + 1, buckets[k]));
        let ghost ss2 = cmds@;
        cmds.push(filter_line_exec(iface, k + 1));
        proof {
            lemma_views_of_push(ss0, ss1[ss1.len() - 1]);
            lemma_views_of_push(ss1, ss2[ss2.len() - 1]);
            lemma_views_of_push(ss2, cmds@[cmds@.len() - 1]);
            lemma_deep_view_views(cmds);
            assert(tc_bucket_lines(iface@, buckets@, k + 1) == tc_bucket_lines(
                iface@,
                buckets@,
                k as int,
            ) + seq![
                class_line(iface@, k + 1),
                netem_line(iface@, k + 1, buckets@[k as int]),
                filter_line(iface@, k + 1),
            ]);
            assert(cmds.deep_view() =~= base + seq![
                qdisc_root_line(iface@),
                default_class_line(iface@),
            ] + tc_bucket_lines(iface@, buckets@, k + 1));
        }
        k += 1;
    }
    proof {
        assert(cmds.deep_view() =~= base + tc_iface_lines(iface@, buckets@));
    }
}

/// Gathers the distinct pair latencies of machine `i`, in first-seen
/// enumeration order.
#[verifier::loop_isolation(false)]
fn collect_buckets(matrix: &LatencyMatrix, plan: &AddressPlan, i: usize) -> (buckets: Vec<u64>)
    requires
        plan.wf(),
        i < plan.machines@.len(),
        matrix.spec_dimension() == plan.total,
    ensures
        buckets@ == bucket_list(
            matrix.spec_nanos(),
            plan.total as int,
            machine_pairs(
                plan.offsets@[i as int] as int,
                plan.counts@[i as int] as int,
                plan.total as int,
            ),
        ),
{
    let ghost nanos = matrix.spec_nanos();
    let ghost tt = plan.total as int;
    let off = plan.offsets[i];
    let cnt = plan.counts[i];
    let total = plan.total;
    proof {
        crate::address_plan::lemma_block_in_range(plan.counts@, i as int);
    }
    let mut buckets: Vec<u64> = Vec::new();
    let mut a: usize = 0;
    proof {
        assert(machine_pairs(off as int, 0, tt) =~= Seq::<(int, int)>::empty());
    }
    while a < cnt
        invariant
            a <= cnt,
            buckets@ == bucket_list(nanos, tt, machine_pairs(off as int, a as int, tt)),
        decreases cnt - a,
    {
        let src = off + a;
        let mut b: usize = 0;
        proof {
            assert(machine_pairs(off as int, a as int, tt) + row_pairs(src as int, 0)
                =~= machine_pairs(off as int, a as int, tt));
        }
        while b < total
            invariant
                b <= total,
                src == off + a,
                a < cnt,
                buckets@ == bucket_list(
                    nanos,
                    tt,
                    machine_pairs(off as int, a as int, tt) + row_pairs(src as int, b as int),
                ),
            decreases total - b,
        {
            let ghost pfx = machine_pairs(off as int, a as int, tt) + row_pairs(
                src as int,
                b as int,
            );
            if b != src {
                let lat = matrix.latency(src, b);
                let ms = lat / 1000000;
                let ghost pfx2 = machine_pairs(off as int, a as int, tt) + row_pairs(
                    src as int,
                    b + 1,
                );
                proof {
                    assert(row_pairs(src as int, b + 1) == row_pairs(src as int, b as int).push(
                        (src as int, b as int),
                    ));
                    assert(pfx2 =~= pfx.push((src as int, b as int)));
                    assert(pfx2.drop_last() =~= pfx);
                    assert(pfx2.last() == (src as int, b as int));
                    assert(pair_ms(nanos, tt, src as int, b as int) == ms);
                }
                match find_bucket(&buckets, ms) {
                    Some(_) => {
                        proof {
                            assert(bucket_list(nanos, tt, pfx2) == buckets@);
                        }
                    },
                    None => {
                        buckets.push(ms);
                        proof {
                            assert(buckets@ == bucket_list(nanos, tt, pfx2));
                        }
                    },
                }
            } else {
                proof {
                    assert(row_pairs(src as int, b + 1) == row_pairs(src as int, b as int));
                }
            }
            b += 1;
        }
        proof {
            assert(machine_pairs(off as int, a + 1, tt) == machine_pairs(off as int, a as int, tt)
                + row_pairs(src as int, tt));
        }
        a += 1;
    }
    buckets
}

/// Builds the nft script of machine `i`: the mark-pair map over the
/// machine's pairs, bucket-major, inside the fixed table skeleton.
#[verifier::loop_isolation(false)]
#[verifier::rlimit(30)]
fn build_nft_script(matrix: &LatencyMatrix, plan: &AddressPlan, i: usize, buckets: &Vec<u64>) -> (s:
    String)
    requires
        plan.wf(),
        i < plan.machines@.len(),
        matrix.spec_dimension() == plan.total,
        buckets@.len() < usize::MAX,
    ensures
        s@ == nft_head() + nft_elems(
            matrix.spec_nanos(),
            plan.total as int,
            plan.global_addresses@,
            machine_pairs(
                plan.offsets@[i as int] as int,
                plan.counts@[i as int] as int,
                plan.total as int,
            ),
            buckets@,
            buckets@.len() as int,
        ) + nft_tail(),
{
    let ghost nanos = matrix.spec_nanos();
    let ghost tt = plan.total as int;
    let ghost gaddrs = plan.global_addresses@;
    let off = plan.offsets[i];
    let cnt = plan.counts[i];
    let total = plan.total;
    proof {
        crate::address_plan::lemma_block_in_range(plan.counts@, i as int);
    }
    let ghost ps_all = machine_pairs(off as int, cnt as int, tt);
    let mut s = String::from_str("table ip oar-p2p {\n");
    s.append("\tmap mark_pairs {\n");
    s.append("\t\ttype ipv4_addr . ipv4_addr : mark\n");
    s.append("\t\telements = {\n");
    proof {
        assert(s@ =~= nft_head());
    }
    let nb = buckets.len();
    let mut k: usize = 0;
    while k < nb
        invariant
            k <= nb,
            s@ == nft_head() + nft_elems(nanos, tt, gaddrs, ps_all, buckets@, k as int),
        decreases nb - k,
    {
        let bval = buckets[k];
        let ghost head_k = nft_head() + nft_elems(nanos, tt, gaddrs, ps_all, buckets@, k as int);
        let mut a: usize = 0;
        proof {
            assert(machine_pairs(off as int, 0, tt) =~= Seq::<(int, int)>::empty());
            assert(s@ =~= head_k + elems_text(
                matching_pairs(nanos, tt, machine_pairs(off as int, 0, tt), bval),
                gaddrs,
                k + 1,
            ));
        }
        while a < cnt
            invariant
                a <= cnt,
                k < nb,
                bval == buckets@[k as int],
                s@ == head_k + elems_text(
                    matching_pairs(nanos, tt, machine_pairs(off as int, a as int, tt), bval),
                    gaddrs,
                    k + 1,
                ),
            decreases cnt - a,
        {
            let src = off + a;
            let mut b: usize = 0;
            proof {
                assert(machine_pairs(off as int, a as int, tt) + row_pairs(src as int, 0)
                    =~= machine_pairs(off as int, a as int, tt));
            }
            while b < total
                invariant
                    b <= total,
                    src == off + a,
                    a < cnt,
                    k < nb,
                    bval == buckets@[k as int],
                    s@ == head_k + elems_text(
                        matching_pairs(
                            nanos,
                            tt,
                            machine_pairs(off as int, a as int, tt) + row_pairs(
                                src as int,
                                b as int,
                            ),
                            bval,
                        ),
                        gaddrs,
                        k + 1,
                    ),
                decreases total - b,
            {
                let ghost pfx = machine_pairs(off as int, a as int, tt) + row_pairs(
                    src as int,
                    b as int,
                );
                if b != src {
                    let lat = matrix.latency(src, b);
                    let ms = lat / 1000000;
                    let ghost pfx2 = machine_pairs(off as int, a as int, tt) + row_pairs(
                        src as int,
                        b + 1,
                    );
                    proof {
                        assert(row_pairs(src as int, b + 1) == row_pairs(
                            src as int,
                            b as int,
                        ).push((src as int, b as int)));
                        assert(pfx2 =~= pfx.push((src as int, b as int)));
                        assert(pfx2.drop_last() =~= pfx);
                        assert(pfx2.last() == (src as int, b as int));
                        assert(pair_ms(nanos, tt, src as int, b as int) == ms);
                    }
                    if ms == bval {
                        append_element_line(
                            &mut s,
                            &plan.global_addresses[src],
                            &plan.global_addresses[b],
                            k + 1,
                        );
                        proof {
                            let m1 = matching_pairs(nanos, tt, pfx, bval);
                            let m2 = matching_pairs(nanos, tt, pfx2, bval);
                            assert(m2 == m1.push((src as int, b as int)));
                            assert(m2.drop_last() =~= m1);
                            assert(m2.last() == (src as int, b as int));
                            assert(elems_text(m2, gaddrs, k + 1) == elems_text(m1, gaddrs, k + 1)
                                + element_line(gaddrs[src as int], gaddrs[b as int], k + 1));
                            assert(s@ =~= head_k + elems_text(m2, gaddrs, k + 1));
                        }
                    } else {
                        proof {
                            assert(matching_pairs(nanos, tt, pfx2, bval) == matching_pairs(
                                nanos,
                                tt,
                                pfx,
                                bval,
                            ));
                        }
                    }
                } else {
                    proof {
                        assert(row_pairs(src as int, b + 1) == row_pairs(src as int, b as int));
                    }
                }
                b += 1;
            }
            proof {
                assert(machine_pairs(off as int, a + 1, tt) == machine_pairs(
                    off as int,
                    a as int,
                    tt,
                ) + row_pairs(src as int, tt));
            }
            a += 1;
        }
        proof {
            assert(nft_elems(nanos, tt, gaddrs, ps_all, buckets@, k + 1) == nft_elems(
                nanos,
                tt,
                gaddrs,
                ps_all,
                buckets@,
                k as int,
            ) + elems_text(
                matching_pairs(nanos, tt, ps_all, buckets@[k as int]),
                gaddrs,
                k + 1,
            ));
            assert(s@ =~= nft_head() + nft_elems(nanos, tt, gaddrs, ps_all, buckets@, k + 1));
        }
        k += 1;
    }
    s.append("\t\t}\n");
    s.append("\t}\n");
    s.append("\n");
    s.append("\tchain postrouting {\n");
    s.append("\t\ttype filter hook postrouting priority mangle -1\n");
    s.append("\t\tpolicy accept\n");
    s.append("\t\tmeta mark set ip saddr . ip daddr map @mark_pairs counter\n");
    s.append("\t}\n");
    s.append("}\n");
    proof {
        assert(s@ =~= nft_head() + nft_elems(nanos, tt, gaddrs, ps_all, buckets@, nb as int)
            + nft_tail());
    }
    s
}

/// Builds the configuration of machine `i` of the plan.
#[verifier::loop_isolation(false)]
fn build_machine_config(matrix: &LatencyMatrix, plan: &AddressPlan, i: usize) -> (c: MachineConfig)
    requires
        plan.wf(),
        i < plan.machines@.len(),
        plan.machines@[i as int].has_interface(),
        matrix.spec_dimension() == plan.total,
    ensures
        config_ok(c, *plan, matrix.spec_nanos(), plan.total as int, i as int),
{
    let ghost nanos = matrix.spec_nanos();
    let ghost tt = plan.total as int;
    let ghost gaddrs = plan.global_addresses@;
    let m = plan.machines[i];
    let off = plan.offsets[i];
    let cnt = plan.counts[i];
    proof {
        crate::address_plan::lemma_block_in_range(plan.counts@, i as int);
    }
    let iface = m.interface();
    let ghost ifv = m.spec_interface();

    // the machine's own addresses, in slot order
    let mut addresses: Vec<OverlayAddress> = Vec::new();
    let mut j: usize = 0;
    while j < cnt
        invariant
            j <= cnt,
            addresses@ == gaddrs.subrange(off as int, off + j),
        decreases cnt - j,
    {
        let ad = machine_address_for_idx(m, j as u32);
        addresses.push(ad);
        proof {
            assert(gaddrs[off + j] == overlay_addr(m.spec_index(), j as nat));
            assert(addresses@ =~= gaddrs.subrange(off as int, off + j + 1));
        }
        j += 1;
    }

    // the address program
    let mut ip_commands: Vec<String> = Vec::new();
    ip_commands.push(route_line_exec(iface));
    proof {
        lemma_deep_view_views(&ip_commands);
        assert(ip_commands.deep_view() =~= seq![route_line(ifv)] + ip_addr_lines(
            ifv,
            addresses@,
            0,
        ));
    }
    let mut j: usize = 0;
    while j < cnt
        invariant
            j <= cnt,
            addresses@.len() == cnt,
            addresses@ == gaddrs.subrange(off as int, off + cnt as int),
            ip_commands.deep_view() == seq![route_line(ifv)] + ip_addr_lines(
                ifv,
                addresses@,
                j as int,
            ),
        decreases cnt - j,
    {
        let ghost ss0 = ip_commands@;
        proof {
            lemma_deep_view_views(&ip_commands);
        }
        let line = addr_line_exec(iface, &addresses[j]);
        ip_commands.push(line);
        proof {
            lemma_views_of_push(ss0, ip_commands@[ip_commands@.len() - 1]);
            lemma_deep_view_views(&ip_commands);
            assert(ip_commands.deep_view() =~= seq![route_line(ifv)] + ip_addr_lines(
                ifv,
                addresses@,
                j + 1,
            ));
        }
        j += 1;
    }

    // buckets, then the traffic-control program
    let buckets = collect_buckets(matrix, plan, i);
    let ghost ps_all = machine_pairs(off as int, cnt as int, tt);
    let total = plan.total;
    let ec = matrix.entry_count();
    proof {
        lemma_bucket_list_len(nanos, tt, ps_all);
        assert(plan.offsets@[i as int] == crate::address_plan::sum_counts(
            plan.counts@.take(i as int),
        ));
        assert(off + cnt <= total);
        crate::address_plan::lemma_sum_counts_nonneg(plan.counts@.take(i as int));
        assert(cnt <= total);
        lemma_machine_pairs_len(off as int, cnt as int, tt);
        assert(buckets@.len() <= cnt * (tt - 1));
        if tt >= 2 {
            assert(cnt * (tt - 1) <= tt * (tt - 1)) by (nonlinear_arith)
                requires
                    0 <= cnt <= tt,
            ;
            assert(tt * (tt - 1) == tt * tt - tt) by (nonlinear_arith);
            assert(ec == tt * tt);
            assert(buckets@.len() + 1 < usize::MAX);
        } else {
            assert(cnt * (tt - 1) <= 0) by (nonlinear_arith)
                requires
                    0 <= cnt,
                    tt - 1 <= 0,
            ;
            assert(buckets@.len() + 1 < usize::MAX);
        }
    }
    let mut tc_commands: Vec<String> = Vec::new();
    proof {
        lemma_deep_view_views(&tc_commands);
        assert(tc_commands.deep_view() =~= Seq::<Seq<char>>::empty());
    }
    emit_tc_for_iface(&mut tc_commands, "lo", &buckets);
    emit_tc_for_iface(&mut tc_commands, iface, &buckets);
    proof {
        assert(tc_commands.deep_view() =~= tc_all_lines(ifv, buckets@));
    }

    // the firewall mark map
    let nft_script = build_nft_script(matrix, plan, i, &buckets);

    let config = MachineConfig { machine: m, addresses, nft_script, tc_commands, ip_commands };
    proof {
        assert(config_ok(config, *plan, nanos, tt, i as int));
    }
    config
}

/// Builds the per-machine configurations: the address program, the
/// traffic-control program on `lo` and on the interface, and the firewall
/// mark map, for every machine of the plan in order. Fails exactly when
/// the matrix is not as wide as the plan's address count.
#[verifier::loop_isolation(false)]
pub fn machine_generate_configs(matrix: &LatencyMatrix, plan: &AddressPlan) -> (r: Result<
    Vec<MachineConfig>,
    PlanningError,
>)
    requires
        plan.wf(),
        forall|i: int|
            0 <= i < plan.machines@.len() ==> (#[trigger] plan.machines@[i]).has_interface(),
    ensures
        matrix.spec_dimension() != plan.total ==> (r matches Err(e) && e
            matches PlanningError::DimensionMismatch { addresses, matrix: md } && addresses
            == plan.total && md == matrix.spec_dimension()),
        matrix.spec_dimension() == plan.total ==> (r matches Ok(cfgs) && cfgs@.len()
            == plan.machines@.len() && forall|i: int|
            0 <= i < plan.machines@.len() ==> config_ok(
                #[trigger] cfgs@[i],
                *plan,
                matrix.spec_nanos(),
                plan.total as int,
                i,
            )),
{
    let dim = matrix.dimension();
    let total = plan.total;
    if dim != total {
        return Err(PlanningError::DimensionMismatch { addresses: total, matrix: dim });
    }
    let n = plan.machines.len();
    let mut configs: Vec<MachineConfig> = Vec::new();
    let mut i: usize = 0;
    while i < n
        invariant
            i <= n,
            configs@.len() == i,
            forall|j: int|
                0 <= j < i ==> config_ok(
                    #[trigger] configs@[j],
                    *plan,
                    matrix.spec_nanos(),
                    plan.total as int,
                    j,
                ),
        decreases n - i,
    {
        let config = build_machine_config(matrix, plan, i);
        configs.push(config);
        i += 1;
    }
    Ok(configs)
}


/// Determinism: any two outputs that the synthesiser's contract admits for
/// the same plan and matrix are byte-identical, field by field.
pub proof fn lemma_synthesis_deterministic(
    c1: Seq<MachineConfig>,
    c2: Seq<MachineConfig>,
    plan: AddressPlan,
    nanos: Seq<u64>,
    dim: int,
)
    requires
        c1.len() == plan.machines@.len(),
        c2.len() == plan.machines@.len(),
        forall|i: int| 0 <= i < c1.len() ==> config_ok(#[trigger] c1[i], plan, nanos, dim, i),
        forall|i: int| 0 <= i < c2.len() ==> config_ok(#[trigger] c2[i], plan, nanos, dim, i),
    ensures
        forall|i: int|
            0 <= i < c1.len() ==> #[trigger] c1[i].machine == c2[i].machine && c1[i].addresses@
                == c2[i].addresses@ && c1[i].ip_commands.deep_view()
                == c2[i].ip_commands.deep_view() && c1[i].tc_commands.deep_view()
                == c2[i].tc_commands.deep_view() && c1[i].nft_script@ == c2[i].nft_script@,
{
    assert forall|i: int|
        0 <= i < c1.len() implies #[trigger] c1[i].machine == c2[i].machine && c1[i].addresses@
        == c2[i].addresses@ && c1[i].ip_commands.deep_view() == c2[i].ip_commands.deep_view()
        && c1[i].tc_commands.deep_view() == c2[i].tc_commands.deep_view() && c1[i].nft_script@
        == c2[i].nft_script@ by {
        assert(config_ok(c1[i], plan, nanos, dim, i));
        assert(config_ok(c2[i], plan, nanos, dim, i));
    }
}

/// How often `p` occurs in a pair sequence.
pub open spec fn count_pair(ps: Seq<(int, int)>, p: (int, int)) -> nat
    decreases ps.len(),
{
    if ps.len() == 0 {
        0
    } else {
        count_pair(ps.drop_last(), p) + if ps.last() == p {
            1 as nat
        } else {
            0 as nat
        }
    }
}

/// The mark-map entries of the first `j` buckets: each matching pair
/// tagged with the bucket's mark.
pub open spec fn tagged(ms: Seq<(int, int)>, mark: int) -> Seq<((int, int), int)> {
    Seq::new(ms.len(), |i: int| (ms[i], mark))
}

/// The mark-map entries of the first `j` buckets, bucket-major, exactly as
/// the nft element list emits them.
pub open spec fn mark_entries(
    nanos: Seq<u64>,
    dim: int,
    ps: Seq<(int, int)>,
    buckets: Seq<u64>,
    j: int,
) -> Seq<((int, int), int)>
    decreases j,
{
    if j <= 0 {
        Seq::empty()
    } else {
        mark_entries(nanos, dim, ps, buckets, j - 1) + tagged(
            matching_pairs(nanos, dim, ps, buckets[j - 1]),
            j,
        )
    }
}

/// How often a pair occurs among the entries, whatever its mark.
pub open spec fn count_entry(es: Seq<((int, int), int)>, p: (int, int)) -> nat
    decreases es.len(),
{
    if es.len() == 0 {
        0
    } else {
        count_entry(es.drop_last(), p) + if es.last().0 == p {
            1 as nat
        } else {
            0 as nat
        }
    }
}

/// How often `v` occurs among the first `j` buckets.
pub open spec fn occ_value(buckets: Seq<u64>, j: int, v: u64) -> nat
    decreases j,
{
    if j <= 0 {
        0
    } else {
        occ_value(buckets, j - 1, v) + if buckets[j - 1] == v {
            1 as nat
        } else {
            0 as nat
        }
    }
}

/// The matching pairs of `v` hold each pair as often as the sequence does
/// when its latency is `v`, and never otherwise.
pub proof fn lemma_count_matching(
    nanos: Seq<u64>,
    dim: int,
    ps: Seq<(int, int)>,
    v: u64,
    p: (int, int),
)
    ensures
        count_pair(matching_pairs(nanos, dim, ps, v), p) == if pair_ms(nanos, dim, p.0, p.1)
            == v {
            count_pair(ps, p)
        } else {
            0
        },
    decreases ps.len(),
{
    if ps.len() > 0 {
        lemma_count_matching(nanos, dim, ps.drop_last(), v, p);
        let pre = matching_pairs(nanos, dim, ps.drop_last(), v);
        if pair_ms(nanos, dim, ps.last().0, ps.last().1) == v {
            assert(matching_pairs(nanos, dim, ps, v) == pre.push(ps.last()));
            assert(pre.push(ps.last()).drop_last() =~= pre);
        }
    }
}

/// A row holds each of its own pairs once and no other pair.
pub proof fn lemma_count_row(src: int, t: int, p: (int, int))
    ensures
        count_pair(row_pairs(src, t), p) == if p.0 == src && 0 <= p.1 < t && p.1 != src {
            1 as nat
        } else {
            0 as nat
        },
    decreases t,
{
    if t > 0 {
        lemma_count_row(src, t - 1, p);
        if t - 1 != src {
            assert(row_pairs(src, t) == row_pairs(src, t - 1).push((src, t - 1)));
            assert(row_pairs(src, t).drop_last() =~= row_pairs(src, t - 1));
        }
    }
}

/// Concatenation adds pair counts.
pub proof fn lemma_count_pair_concat(a: Seq<(int, int)>, b: Seq<(int, int)>, p: (int, int))
    ensures
        count_pair(a + b, p) == count_pair(a, p) + count_pair(b, p),
    decreases b.len(),
{
    if b.len() == 0 {
        assert(a + b =~= a);
    } else {
        lemma_count_pair_concat(a, b.drop_last(), p);
        assert((a + b).drop_last() =~= a + b.drop_last());
        assert((a + b).last() == b.last());
    }
}

/// A machine's block holds each of its ordered pairs exactly once.
pub proof fn lemma_count_machine(off: int, c: int, total: int, p: (int, int))
    ensures
        count_pair(machine_pairs(off, c, total), p) == if off <= p.0 < off + c && 0 <= p.1
            < total && p.1 != p.0 {
            1 as nat
        } else {
            0 as nat
        },
    decreases c,
{
    if c > 0 {
        lemma_count_machine(off, c - 1, total, p);
        lemma_count_row(off + c - 1, total, p);
        lemma_count_pair_concat(machine_pairs(off, c - 1, total), row_pairs(off + c - 1, total), p);
    }
}

/// A bucket list holds a value exactly when some pair rounds to it.
pub proof fn lemma_bucket_list_contains(nanos: Seq<u64>, dim: int, ps: Seq<(int, int)>, v: u64)
    ensures
        bucket_list(nanos, dim, ps).contains(v) <==> exists|i: int|
            0 <= i < ps.len() && pair_ms(nanos, dim, (#[trigger] ps[i]).0, ps[i].1) == v,
    decreases ps.len(),
{
    if ps.len() == 0 {
    } else {
        lemma_bucket_list_contains(nanos, dim, ps.drop_last(), v);
        let pre = bucket_list(nanos, dim, ps.drop_last());
        let lv = pair_ms(nanos, dim, ps.last().0, ps.last().1);
        assert(ps.last() == ps[ps.len() - 1]);
        if bucket_list(nanos, dim, ps).contains(v) {
            if pre.contains(lv) {
                assert(bucket_list(nanos, dim, ps) == pre);
                let i = choose|i: int|
                    0 <= i < ps.drop_last().len() && pair_ms(nanos, dim,
                        (#[trigger] ps.drop_last()[i]).0, ps.drop_last()[i].1) == v;
                assert(ps[i] == ps.drop_last()[i]);
            } else {
                if v == lv {
                    assert(pair_ms(nanos, dim, ps[ps.len() - 1].0, ps[ps.len() - 1].1) == v);
                } else {
                    assert(pre.push(lv)[pre.len() as int] == lv);
                    assert forall|q: int| 0 <= q < pre.push(lv).len() && pre.push(lv)[q] == v
                        implies q < pre.len() by {}
                    assert(pre.contains(v));
                    let i = choose|i: int|
                        0 <= i < ps.drop_last().len() && pair_ms(nanos, dim,
                            (#[trigger] ps.drop_last()[i]).0, ps.drop_last()[i].1) == v;
                    assert(ps[i] == ps.drop_last()[i]);
                }
            }
        }
        if exists|i: int|
            0 <= i < ps.len() && pair_ms(nanos, dim, (#[trigger] ps[i]).0, ps[i].1) == v {
            let i = choose|i: int|
                0 <= i < ps.len() && pair_ms(nanos, dim, (#[trigger] ps[i]).0, ps[i].1) == v;
            if i < ps.len() - 1 {
                assert(ps.drop_last()[i] == ps[i]);
                assert(pre.contains(v));
                if pre.contains(lv) {
                } else {
                    let q = choose|q: int| 0 <= q < pre.len() && pre[q] == v;
                    assert(pre.push(lv)[q] == v);
                }
            } else {
                if pre.contains(lv) {
                    assert(v == lv);
                } else {
                    assert(pre.push(lv)[pre.len() as int] == lv);
                }
            }
        }
    }
}

/// Bucket values are pairwise distinct.
pub proof fn lemma_bucket_list_distinct(nanos: Seq<u64>, dim: int, ps: Seq<(int, int)>)
    ensures
        forall|k1: int, k2: int|
            0 <= k1 < k2 < bucket_list(nanos, dim, ps).len() ==> bucket_list(nanos, dim, ps)[k1]
                != bucket_list(nanos, dim, ps)[k2],
    decreases ps.len(),
{
    if ps.len() > 0 {
        lemma_bucket_list_distinct(nanos, dim, ps.drop_last());
        let pre = bucket_list(nanos, dim, ps.drop_last());
        let lv = pair_ms(nanos, dim, ps.last().0, ps.last().1);
        if !pre.contains(lv) {
            assert forall|k1: int, k2: int|
                0 <= k1 < k2 < pre.push(lv).len() implies pre.push(lv)[k1] != pre.push(lv)[
                k2] by {
                if k2 < pre.len() {
                } else {
                    assert(pre.push(lv)[k2] == lv);
                    assert(pre.push(lv)[k1] == pre[k1]);
                    assert(pre.contains(pre[k1])) by {
                        assert(pre[k1] == pre[k1]);
                    }
                }
            }
        }
    }
}


/// Tagging pairs with a mark keeps their count.
pub proof fn lemma_count_entry_tagged(ms: Seq<(int, int)>, mark: int, p: (int, int))
    ensures
        count_entry(tagged(ms, mark), p) == count_pair(ms, p),
    decreases ms.len(),
{
    if ms.len() > 0 {
        lemma_count_entry_tagged(ms.drop_last(), mark, p);
        assert(tagged(ms, mark).drop_last() =~= tagged(ms.drop_last(), mark));
        assert(tagged(ms, mark).last() == (ms.last(), mark));
    } else {
        assert(tagged(ms, mark) =~= Seq::<((int, int), int)>::empty());
    }
}

/// Concatenation adds entry counts.
pub proof fn lemma_count_entry_concat(
    a: Seq<((int, int), int)>,
    b: Seq<((int, int), int)>,
    p: (int, int),
)
    ensures
        count_entry(a + b, p) == count_entry(a, p) + count_entry(b, p),
    decreases b.len(),
{
    if b.len() == 0 {
        assert(a + b =~= a);
    } else {
        lemma_count_entry_concat(a, b.drop_last(), p);
        assert((a + b).drop_last() =~= a + b.drop_last());
        assert((a + b).last() == b.last());
    }
}

/// A pair that occurs at all occurs at some index.
pub proof fn lemma_count_pair_pos(ps: Seq<(int, int)>, p: (int, int))
    requires
        count_pair(ps, p) >= 1,
    ensures
        exists|i: int| 0 <= i < ps.len() && ps[i] == p,
    decreases ps.len(),
{
    if ps.last() == p {
        assert(ps[ps.len() - 1] == p);
    } else {
        lemma_count_pair_pos(ps.drop_last(), p);
        let i = choose|i: int| 0 <= i < ps.drop_last().len() && ps.drop_last()[i] == p;
        assert(ps[i] == p);
    }
}

/// Under distinct buckets, a value occurs among the first `j` exactly when
/// it appears there, and then once.
pub proof fn lemma_occ_exact(buckets: Seq<u64>, j: int, v: u64)
    requires
        0 <= j <= buckets.len(),
        forall|k1: int, k2: int| 0 <= k1 < k2 < buckets.len() ==> buckets[k1] != buckets[k2],
    ensures
        occ_value(buckets, j, v) == if exists|i: int| 0 <= i < j && buckets[i] == v {
            1 as nat
        } else {
            0 as nat
        },
    decreases j,
{
    if j > 0 {
        lemma_occ_exact(buckets, j - 1, v);
        if buckets[j - 1] == v {
            assert(forall|i: int| 0 <= i < j - 1 ==> buckets[i] != v);
        } else {
            if exists|i: int| 0 <= i < j && buckets[i] == v {
                let i = choose|i: int| 0 <= i < j && buckets[i] == v;
                assert(0 <= i < j - 1 && buckets[i] == v);
            }
        }
    }
}

/// Each pair occurs among the first `j` buckets' entries as often as its
/// value occurs among those buckets, times its pair count.
pub proof fn lemma_count_entries_occ(
    nanos: Seq<u64>,
    dim: int,
    ps: Seq<(int, int)>,
    buckets: Seq<u64>,
    j: int,
    p: (int, int),
)
    requires
        0 <= j <= buckets.len(),
    ensures
        count_entry(mark_entries(nanos, dim, ps, buckets, j), p) == occ_value(
            buckets,
            j,
            pair_ms(nanos, dim, p.0, p.1),
        ) * count_pair(ps, p),
    decreases j,
{
    let v = pair_ms(nanos, dim, p.0, p.1);
    if j <= 0 {
        assert(occ_value(buckets, j, v) * count_pair(ps, p) == 0) by (nonlinear_arith)
            requires
                occ_value(buckets, j, v) == 0,
        ;
    } else {
        lemma_count_entries_occ(nanos, dim, ps, buckets, j - 1, p);
        lemma_count_matching(nanos, dim, ps, buckets[j - 1], p);
        lemma_count_entry_tagged(matching_pairs(nanos, dim, ps, buckets[j - 1]), j, p);
        lemma_count_entry_concat(
            mark_entries(nanos, dim, ps, buckets, j - 1),
            tagged(matching_pairs(nanos, dim, ps, buckets[j - 1]), j),
            p,
        );
        if buckets[j - 1] == v {
            assert((occ_value(buckets, j - 1, v) + 1) * count_pair(ps, p) == occ_value(
                buckets,
                j - 1,
                v,
            ) * count_pair(ps, p) + count_pair(ps, p)) by (nonlinear_arith);
        }
    }
}

/// Entries of earlier buckets stay when later buckets are appended.
pub proof fn lemma_entries_grow(
    nanos: Seq<u64>,
    dim: int,
    ps: Seq<(int, int)>,
    buckets: Seq<u64>,
    j1: int,
    j2: int,
    e: ((int, int), int),
)
    requires
        0 <= j1 <= j2,
        mark_entries(nanos, dim, ps, buckets, j1).contains(e),
    ensures
        mark_entries(nanos, dim, ps, buckets, j2).contains(e),
    decreases j2 - j1,
{
    if j1 < j2 {
        let a = mark_entries(nanos, dim, ps, buckets, j1);
        let b = mark_entries(nanos, dim, ps, buckets, j1 + 1);
        let i = choose|i: int| 0 <= i < a.len() && a[i] == e;
        assert(b[i] == e);
        lemma_entries_grow(nanos, dim, ps, buckets, j1 + 1, j2, e);
    }
}

/// Every entry's mark lies between one and the bucket count.
pub proof fn lemma_entries_mark_range(
    nanos: Seq<u64>,
    dim: int,
    ps: Seq<(int, int)>,
    buckets: Seq<u64>,
    j: int,
)
    ensures
        forall|i: int|
            0 <= i < mark_entries(nanos, dim, ps, buckets, j).len() ==> 1 <= (
            #[trigger] mark_entries(nanos, dim, ps, buckets, j)[i]).1 <= j,
    decreases j,
{
    if j > 0 {
        lemma_entries_mark_range(nanos, dim, ps, buckets, j - 1);
        let a = mark_entries(nanos, dim, ps, buckets, j - 1);
        let add = tagged(matching_pairs(nanos, dim, ps, buckets[j - 1]), j);
        assert forall|i: int|
            0 <= i < mark_entries(nanos, dim, ps, buckets, j).len() implies 1 <= (
            #[trigger] mark_entries(nanos, dim, ps, buckets, j)[i]).1 <= j by {
            if i < a.len() {
                assert(mark_entries(nanos, dim, ps, buckets, j)[i] == a[i]);
            } else {
                assert(mark_entries(nanos, dim, ps, buckets, j)[i] == add[i - a.len()]);
            }
        }
    }
}

/// Every ordered pair of the machine's block appears exactly once in the
/// mark map, under the mark of the bucket its rounded latency fell into.
pub proof fn lemma_mark_map_exact(nanos: Seq<u64>, total: int, off: int, cnt: int, p: (int, int))
    requires
        0 <= off,
        0 <= cnt,
        off + cnt <= total,
        off <= p.0 < off + cnt,
        0 <= p.1 < total,
        p.1 != p.0,
    ensures
        ({
            let ps = machine_pairs(off, cnt, total);
            let buckets = bucket_list(nanos, total, ps);
            let es = mark_entries(nanos, total, ps, buckets, buckets.len() as int);
            &&& count_entry(es, p) == 1
            &&& exists|k: int|
                0 <= k < buckets.len() && buckets[k] == pair_ms(nanos, total, p.0, p.1)
                    && es.contains((p, k + 1))
        }),
{
    let ps = machine_pairs(off, cnt, total);
    let buckets = bucket_list(nanos, total, ps);
    let es = mark_entries(nanos, total, ps, buckets, buckets.len() as int);
    let v = pair_ms(nanos, total, p.0, p.1);

    lemma_count_machine(off, cnt, total, p);
    assert(count_pair(ps, p) == 1);
    lemma_count_pair_pos(ps, p);
    let i = choose|i: int| 0 <= i < ps.len() && ps[i] == p;
    lemma_bucket_list_contains(nanos, total, ps, v);
    assert(buckets.contains(v)) by {
        assert(pair_ms(nanos, total, ps[i].0, ps[i].1) == v);
    }
    let k = choose|k: int| 0 <= k < buckets.len() && buckets[k] == v;
    lemma_bucket_list_distinct(nanos, total, ps);
    lemma_occ_exact(buckets, buckets.len() as int, v);
    assert(occ_value(buckets, buckets.len() as int, v) == 1) by {
        assert(0 <= k < buckets.len() && buckets[k] == v);
    }
    lemma_count_entries_occ(nanos, total, ps, buckets, buckets.len() as int, p);
    assert(count_entry(es, p) == 1 * 1);

    // the pair stands in bucket `k`'s own entries
    lemma_count_matching(nanos, total, ps, buckets[k], p);
    assert(count_pair(matching_pairs(nanos, total, ps, buckets[k]), p) == 1);
    lemma_count_pair_pos(matching_pairs(nanos, total, ps, buckets[k]), p);
    let q = choose|q: int|
        0 <= q < matching_pairs(nanos, total, ps, buckets[k]).len() && matching_pairs(
            nanos,
            total,
            ps,
            buckets[k],
        )[q] == p;
    let a = mark_entries(nanos, total, ps, buckets, k);
    let step = mark_entries(nanos, total, ps, buckets, k + 1);
    assert(step[a.len() + q] == (p, k + 1));
    assert(step.contains((p, k + 1)));
    lemma_entries_grow(nanos, total, ps, buckets, k + 1, buckets.len() as int, (p, k + 1));
}

/// The default class `1:9999` always stands right after the root qdisc,
/// and, with fewer than `9999` buckets, no mark collides with it.
pub proof fn lemma_default_class_reserved(
    iface: Seq<char>,
    nanos: Seq<u64>,
    total: int,
    off: int,
    cnt: int,
)
    requires
        bucket_list(nanos, total, machine_pairs(off, cnt, total)).len() <= 9998,
    ensures
        ({
            let ps = machine_pairs(off, cnt, total);
            let buckets = bucket_list(nanos, total, ps);
            let es = mark_entries(nanos, total, ps, buckets, buckets.len() as int);
            &&& tc_iface_lines(iface, buckets)[0] == qdisc_root_line(iface)
            &&& tc_iface_lines(iface, buckets)[1] == default_class_line(iface)
            &&& forall|i: int| 0 <= i < es.len() ==> (#[trigger] es[i]).1 != 9999
        }),
{
    let ps = machine_pairs(off, cnt, total);
    let buckets = bucket_list(nanos, total, ps);
    lemma_entries_mark_range(nanos, total, ps, buckets, buckets.len() as int);
}


/// Evaluates the line count of a two-element sequence.
pub proof fn lemma_count_line_pair(l1: Seq<char>, l2: Seq<char>, l: Seq<char>)
    ensures
        count_line(seq![l1, l2], l) == (if l1 == l {
            1 as nat
        } else {
            0 as nat
        }) + (if l2 == l {
            1 as nat
        } else {
            0 as nat
        }),
{
    let s1 = seq![l1];
    let s2 = seq![l1, l2];
    assert(s2.drop_last() =~= s1);
    assert(s1.drop_last() =~= Seq::<Seq<char>>::empty());
    assert(count_line(Seq::<Seq<char>>::empty(), l) == 0);
    assert(count_line(s1, l) == count_line(s1.drop_last(), l) + (if s1.last() == l {
        1 as nat
    } else {
        0 as nat
    }));
    assert(count_line(s2, l) == count_line(s2.drop_last(), l) + (if s2.last() == l {
        1 as nat
    } else {
        0 as nat
    }));
}

/// Evaluates the line count of a three-element sequence.
pub proof fn lemma_count_line_triple(l1: Seq<char>, l2: Seq<char>, l3: Seq<char>, l: Seq<char>)
    ensures
        count_line(seq![l1, l2, l3], l) == (if l1 == l {
            1 as nat
        } else {
            0 as nat
        }) + (if l2 == l {
            1 as nat
        } else {
            0 as nat
        }) + (if l3 == l {
            1 as nat
        } else {
            0 as nat
        }),
{
    let s2 = seq![l1, l2];
    let s3 = seq![l1, l2, l3];
    lemma_count_line_pair(l1, l2, l);
    assert(s3.drop_last() =~= s2);
    assert(count_line(s3, l) == count_line(s3.drop_last(), l) + (if s3.last() == l {
        1 as nat
    } else {
        0 as nat
    }));
}

/// A digit run bounded by a non-digit pins the number that produced it.
pub proof fn lemma_dec_run_injective(
    prefix: Seq<char>,
    a: nat,
    resta: Seq<char>,
    b: nat,
    restb: Seq<char>,
)
    requires
        prefix + dec_digits(a) + resta == prefix + dec_digits(b) + restb,
        resta.len() >= 1,
        !crate::text::is_digit_char(resta[0]),
        restb.len() >= 1,
        !crate::text::is_digit_char(restb[0]),
    ensures
        a == b,
{
    crate::text::lemma_dec_digits_val(a);
    crate::text::lemma_dec_digits_val(b);
    let s = prefix + dec_digits(a) + resta;
    let s2 = prefix + dec_digits(b) + restb;
    let pl = prefix.len() as int;
    let la = dec_digits(a).len() as int;
    let lb = dec_digits(b).len() as int;
    assert(s[pl + la] == resta[0]);
    assert(s2[pl + lb] == restb[0]);
    if la < lb {
        assert(s2[pl + la] == dec_digits(b)[la]);
        assert(crate::text::is_digit_char(dec_digits(b)[la]));
        assert(false);
    }
    if lb < la {
        assert(s[pl + lb] == dec_digits(a)[lb]);
        assert(crate::text::is_digit_char(dec_digits(a)[lb]));
        assert(false);
    }
    assert(dec_digits(a) =~= dec_digits(b)) by {
        assert forall|q: int| 0 <= q < la implies dec_digits(a)[q] == dec_digits(b)[q] by {
            assert(s[pl + q] == dec_digits(a)[q]);
            assert(s2[pl + q] == dec_digits(b)[q]);
        }
    }
    assert(crate::text::digits_val(dec_digits(a)) == crate::text::digits_val(dec_digits(b)));
}

/// Sequences that open differently are different.
pub proof fn lemma_first_char_differs(s1: Seq<char>, s2: Seq<char>, i: int)
    requires
        0 <= i < s1.len(),
        0 <= i < s2.len(),
        s1[i] != s2[i],
    ensures
        s1 != s2,
{
    if s1 == s2 {
        assert(s1[i] == s2[i]);
    }
}

/// How often a line occurs in a command sequence.
pub open spec fn count_line(lines: Seq<Seq<char>>, l: Seq<char>) -> nat
    decreases lines.len(),
{
    if lines.len() == 0 {
        0
    } else {
        count_line(lines.drop_last(), l) + if lines.last() == l {
            1 as nat
        } else {
            0 as nat
        }
    }
}

/// Concatenation adds line counts.
pub proof fn lemma_count_line_concat(a: Seq<Seq<char>>, b: Seq<Seq<char>>, l: Seq<char>)
    ensures
        count_line(a + b, l) == count_line(a, l) + count_line(b, l),
    decreases b.len(),
{
    if b.len() == 0 {
        assert(a + b =~= a);
    } else {
        lemma_count_line_concat(a, b.drop_last(), l);
        assert((a + b).drop_last() =~= a + b.drop_last());
        assert((a + b).last() == b.last());
    }
}

/// Distinct class ids give distinct class lines.
pub proof fn lemma_class_line_injective(iface: Seq<char>, k1: int, k2: int)
    requires
        0 <= k1,
        0 <= k2,
        k1 != k2,
    ensures
        class_line(iface, k1) != class_line(iface, k2),
{
    reveal_strlit(" htb rate 10gbit");
    let pre = "class add dev "@ + iface + " parent 1: classid 1:"@;
    let suf = " htb rate 10gbit"@;
    assert(class_line(iface, k1) =~= pre + dec_digits(k1 as nat) + suf);
    assert(class_line(iface, k2) =~= pre + dec_digits(k2 as nat) + suf);
    assert(!crate::text::is_digit_char(suf[0]));
    if class_line(iface, k1) == class_line(iface, k2) {
        lemma_dec_run_injective(pre, k1 as nat, suf, k2 as nat, suf);
    }
}

/// Distinct class ids give distinct netem lines, whatever their delays.
pub proof fn lemma_netem_line_injective(iface: Seq<char>, k1: int, ms1: u64, k2: int, ms2: u64)
    requires
        0 <= k1,
        0 <= k2,
        k1 != k2,
    ensures
        netem_line(iface, k1, ms1) != netem_line(iface, k2, ms2),
{
    reveal_strlit(" handle ");
    let pre = "qdisc add dev "@ + iface + " parent 1:"@;
    let suf1 = " handle "@ + dec_digits((k1 + 1) as nat) + ": netem delay "@ + dec_digits(
        ms1 as nat,
    ) + "ms"@;
    let suf2 = " handle "@ + dec_digits((k2 + 1) as nat) + ": netem delay "@ + dec_digits(
        ms2 as nat,
    ) + "ms"@;
    assert(netem_line(iface, k1, ms1) =~= pre + dec_digits(k1 as nat) + suf1);
    assert(netem_line(iface, k2, ms2) =~= pre + dec_digits(k2 as nat) + suf2);
    assert(suf1[0] == " handle "@[0]);
    assert(suf2[0] == " handle "@[0]);
    assert(!crate::text::is_digit_char(" handle "@[0]));
    if netem_line(iface, k1, ms1) == netem_line(iface, k2, ms2) {
        lemma_dec_run_injective(pre, k1 as nat, suf1, k2 as nat, suf2);
    }
}

/// Distinct marks give distinct filter lines.
pub proof fn lemma_filter_line_injective(iface: Seq<char>, k1: int, k2: int)
    requires
        0 <= k1,
        0 <= k2,
        k1 != k2,
    ensures
        filter_line(iface, k1) != filter_line(iface, k2),
{
    reveal_strlit(" fw flowid 1:");
    let pre = "filter add dev "@ + iface + " parent 1:0 prio 1 handle "@;
    let suf1 = " fw flowid 1:"@ + dec_digits(k1 as nat);
    let suf2 = " fw flowid 1:"@ + dec_digits(k2 as nat);
    assert(filter_line(iface, k1) =~= pre + dec_digits(k1 as nat) + suf1);
    assert(filter_line(iface, k2) =~= pre + dec_digits(k2 as nat) + suf2);
    assert(suf1[0] == " fw flowid 1:"@[0]);
    assert(suf2[0] == " fw flowid 1:"@[0]);
    assert(!crate::text::is_digit_char(" fw flowid 1:"@[0]));
    if filter_line(iface, k1) == filter_line(iface, k2) {
        lemma_dec_run_injective(pre, k1 as nat, suf1, k2 as nat, suf2);
    }
}

/// The four line kinds of one interface's program never collide: their
/// texts differ at a fixed position.
pub proof fn lemma_line_kinds_distinct(iface: Seq<char>, k1: int, ms: u64, k2: int)
    requires
        0 <= k1,
        0 <= k2,
    ensures
        class_line(iface, k1) != netem_line(iface, k2, ms),
        class_line(iface, k1) != filter_line(iface, k2),
        class_line(iface, k1) != qdisc_root_line(iface),
        netem_line(iface, k2, ms) != filter_line(iface, k1),
        netem_line(iface, k2, ms) != qdisc_root_line(iface),
        filter_line(iface, k1) != qdisc_root_line(iface),
{
    reveal_strlit("class add dev ");
    reveal_strlit("qdisc add dev ");
    reveal_strlit("filter add dev ");
    reveal_strlit(" root handle 1: htb default 9999");
    reveal_strlit(" parent 1:");
    assert(class_line(iface, k1)[0] == 'c');
    assert(netem_line(iface, k2, ms)[0] == 'q');
    assert(filter_line(iface, k1)[0] == 'f');
    assert(qdisc_root_line(iface)[0] == 'q');
    lemma_first_char_differs(class_line(iface, k1), netem_line(iface, k2, ms), 0);
    lemma_first_char_differs(class_line(iface, k1), filter_line(iface, k2), 0);
    lemma_first_char_differs(class_line(iface, k1), qdisc_root_line(iface), 0);
    lemma_first_char_differs(netem_line(iface, k2, ms), filter_line(iface, k1), 0);
    lemma_first_char_differs(filter_line(iface, k1), qdisc_root_line(iface), 0);
    // the root line and a netem line agree up to the interface name and
    // then read ` root ...` against ` parent 1:...`
    let j = 14 + iface.len() as int;
    assert(qdisc_root_line(iface)[j + 1] == " root handle 1: htb default 9999"@[1]);
    assert(netem_line(iface, k2, ms)[j + 1] == " parent 1:"@[1]);
    lemma_first_char_differs(netem_line(iface, k2, ms), qdisc_root_line(iface), j + 1);
}

/// The bucket section holds exactly one class, one netem and one filter
/// line per bucket position up to `j`.
pub proof fn lemma_tc_bucket_counts(iface: Seq<char>, buckets: Seq<u64>, j: int, k: int)
    requires
        1 <= k <= buckets.len(),
        0 <= j <= buckets.len(),
    ensures
        count_line(tc_bucket_lines(iface, buckets, j), class_line(iface, k)) == if k <= j {
            1 as nat
        } else {
            0 as nat
        },
        count_line(tc_bucket_lines(iface, buckets, j), netem_line(iface, k, buckets[k - 1]))
            == if k <= j {
            1 as nat
        } else {
            0 as nat
        },
        count_line(tc_bucket_lines(iface, buckets, j), filter_line(iface, k)) == if k <= j {
            1 as nat
        } else {
            0 as nat
        },
    decreases j,
{
    if j > 0 {
        lemma_tc_bucket_counts(iface, buckets, j - 1, k);
        let add = seq![
            class_line(iface, j),
            netem_line(iface, j, buckets[j - 1]),
            filter_line(iface, j),
        ];
        lemma_count_line_concat(tc_bucket_lines(iface, buckets, j - 1), add, class_line(iface, k));
        lemma_count_line_concat(
            tc_bucket_lines(iface, buckets, j - 1),
            add,
            netem_line(iface, k, buckets[k - 1]),
        );
        lemma_count_line_concat(tc_bucket_lines(iface, buckets, j - 1), add, filter_line(iface, k));
        lemma_count_line_triple(
            class_line(iface, j),
            netem_line(iface, j, buckets[j - 1]),
            filter_line(iface, j),
            class_line(iface, k),
        );
        lemma_count_line_triple(
            class_line(iface, j),
            netem_line(iface, j, buckets[j - 1]),
            filter_line(iface, j),
            netem_line(iface, k, buckets[k - 1]),
        );
        lemma_count_line_triple(
            class_line(iface, j),
            netem_line(iface, j, buckets[j - 1]),
            filter_line(iface, j),
            filter_line(iface, k),
        );
        lemma_line_kinds_distinct(iface, j, buckets[k - 1], k);
        lemma_line_kinds_distinct(iface, k, buckets[j - 1], j);
        if j != k {
            lemma_class_line_injective(iface, j, k);
            lemma_netem_line_injective(iface, j, buckets[j - 1], k, buckets[k - 1]);
            lemma_filter_line_injective(iface, j, k);
        }
        assert(count_line(add, class_line(iface, k)) == if k == j {
            1 as nat
        } else {
            0 as nat
        });
        assert(count_line(add, netem_line(iface, k, buckets[k - 1])) == if k == j {
            1 as nat
        } else {
            0 as nat
        });
        assert(count_line(add, filter_line(iface, k)) == if k == j {
            1 as nat
        } else {
            0 as nat
        });
    }
}

/// One interface's program holds exactly one class, one netem and one
/// filter line for every bucket mark, the default class untouched.
pub proof fn lemma_tc_program_exact(iface: Seq<char>, buckets: Seq<u64>, k: int)
    requires
        1 <= k <= buckets.len(),
        buckets.len() <= 9998,
    ensures
        count_line(tc_iface_lines(iface, buckets), class_line(iface, k)) == 1,
        count_line(tc_iface_lines(iface, buckets), netem_line(iface, k, buckets[k - 1])) == 1,
        count_line(tc_iface_lines(iface, buckets), filter_line(iface, k)) == 1,
        count_line(tc_iface_lines(iface, buckets), default_class_line(iface)) == 1,
{
    let hdr = seq![qdisc_root_line(iface), default_class_line(iface)];
    let body = tc_bucket_lines(iface, buckets, buckets.len() as int);
    lemma_tc_bucket_counts(iface, buckets, buckets.len() as int, k);
    lemma_line_kinds_distinct(iface, k, buckets[k - 1], k);
    lemma_line_kinds_distinct(iface, 9999, buckets[k - 1], k);
    lemma_class_line_injective(iface, k, 9999);
    lemma_count_line_concat(hdr, body, class_line(iface, k));
    lemma_count_line_concat(hdr, body, netem_line(iface, k, buckets[k - 1]));
    lemma_count_line_concat(hdr, body, filter_line(iface, k));
    lemma_count_line_concat(hdr, body, default_class_line(iface));
    lemma_count_line_pair(qdisc_root_line(iface), default_class_line(iface), class_line(iface, k));
    lemma_count_line_pair(
        qdisc_root_line(iface),
        default_class_line(iface),
        netem_line(iface, k, buckets[k - 1]),
    );
    lemma_count_line_pair(qdisc_root_line(iface), default_class_line(iface), filter_line(iface, k));
    lemma_count_line_pair(
        qdisc_root_line(iface),
        default_class_line(iface),
        default_class_line(iface),
    );
    assert(count_line(hdr, class_line(iface, k)) == 0);
    assert(count_line(hdr, default_class_line(iface)) == 1);
    // no bucket line collides with the default class
    assert(count_line(body, default_class_line(iface)) == 0) by {
        lemma_tc_default_not_in_body(iface, buckets, buckets.len() as int);
    }
}

/// No bucket line equals the default class line when every bucket id is
/// below the reserved value.
pub proof fn lemma_tc_default_not_in_body(iface: Seq<char>, buckets: Seq<u64>, j: int)
    requires
        j <= 9998,
    ensures
        count_line(tc_bucket_lines(iface, buckets, j), default_class_line(iface)) == 0,
    decreases j,
{
    if j > 0 {
        lemma_tc_default_not_in_body(iface, buckets, j - 1);
        let add = seq![
            class_line(iface, j),
            netem_line(iface, j, buckets[j - 1]),
            filter_line(iface, j),
        ];
        lemma_count_line_concat(
            tc_bucket_lines(iface, buckets, j - 1),
            add,
            default_class_line(iface),
        );
        lemma_count_line_triple(
            class_line(iface, j),
            netem_line(iface, j, buckets[j - 1]),
            filter_line(iface, j),
            default_class_line(iface),
        );
        lemma_class_line_injective(iface, j, 9999);
        lemma_line_kinds_distinct(iface, 9999, buckets[j - 1], j);
        assert(count_line(add, default_class_line(iface)) == 0);
    }
}


/// The rendered text of a list of mark entries, in order.
pub open spec fn entries_text(es: Seq<((int, int), int)>, gaddrs: Seq<OverlayAddress>) -> Seq<
    char,
>
    decreases es.len(),
{
    if es.len() == 0 {
        Seq::empty()
    } else {
        entries_text(es.drop_last(), gaddrs) + element_line(
            gaddrs[es.last().0.0],
            gaddrs[es.last().0.1],
            es.last().1,
        )
    }
}

/// Rendering distributes over concatenation of entry lists.
pub proof fn lemma_entries_text_concat(
    a: Seq<((int, int), int)>,
    b: Seq<((int, int), int)>,
    gaddrs: Seq<OverlayAddress>,
)
    ensures
        entries_text(a + b, gaddrs) == entries_text(a, gaddrs) + entries_text(b, gaddrs),
    decreases b.len(),
{
    if b.len() == 0 {
        assert(a + b =~= a);
        assert(entries_text(a, gaddrs) + entries_text(b, gaddrs) =~= entries_text(a, gaddrs));
    } else {
        lemma_entries_text_concat(a, b.drop_last(), gaddrs);
        assert((a + b).drop_last() =~= a + b.drop_last());
        assert((a + b).last() == b.last());
        assert(entries_text(a, gaddrs) + entries_text(b.drop_last(), gaddrs) + element_line(
            gaddrs[b.last().0.0],
            gaddrs[b.last().0.1],
            b.last().1,
        ) =~= entries_text(a, gaddrs) + entries_text(b, gaddrs));
    }
}

/// A bucket's element text is the rendering of its tagged pairs.
pub proof fn lemma_elems_text_tagged(
    ms: Seq<(int, int)>,
    gaddrs: Seq<OverlayAddress>,
    mark: int,
)
    ensures
        elems_text(ms, gaddrs, mark) == entries_text(tagged(ms, mark), gaddrs),
    decreases ms.len(),
{
    if ms.len() == 0 {
        assert(tagged(ms, mark) =~= Seq::<((int, int), int)>::empty());
    } else {
        lemma_elems_text_tagged(ms.drop_last(), gaddrs, mark);
        assert(tagged(ms, mark).drop_last() =~= tagged(ms.drop_last(), mark));
        assert(tagged(ms, mark).last() == (ms.last(), mark));
    }
}

/// The nft element section is exactly the rendering of the mark entries:
/// what the mark-map law states of the entries holds of the emitted text.
pub proof fn lemma_nft_elems_are_mark_entries(
    nanos: Seq<u64>,
    dim: int,
    gaddrs: Seq<OverlayAddress>,
    ps: Seq<(int, int)>,
    buckets: Seq<u64>,
    j: int,
)
    ensures
        nft_elems(nanos, dim, gaddrs, ps, buckets, j) == entries_text(
            mark_entries(nanos, dim, ps, buckets, j),
            gaddrs,
        ),
    decreases j,
{
    if j <= 0 {
    } else {
        lemma_nft_elems_are_mark_entries(nanos, dim, gaddrs, ps, buckets, j - 1);
        let ms = matching_pairs(nanos, dim, ps, buckets[j - 1]);
        lemma_elems_text_tagged(ms, gaddrs, j);
        lemma_entries_text_concat(
            mark_entries(nanos, dim, ps, buckets, j - 1),
            tagged(ms, j),
            gaddrs,
        );
    }
}

} // verus!
