//! Overlay addressing: the `10.index.c.d` encoding of per-machine address
//! sequences, and the address plan that fixes the global enumeration order.

use vstd::prelude::*;

use crate::address_allocation_policy::AddressAllocationPolicy;
use crate::machine::Machine;
use crate::latency_matrix::{find_dot, lemma_find_dot, lemma_find_dot_unique};
use crate::text::{all_digits, append_dec_u64, dec_digits, digits_val, is_digit_char, parse_u32};

verus! {

/// The most addresses one machine can carry: the third octet runs over
/// `0..=253` and the fourth over `1..=254`.
pub const MAX_ADDRESSES_PER_MACHINE: u32 = 64516;

/// An overlay IPv4 address, one octet per field.
#[derive(Debug, Clone, Copy, PartialEq, Eq, Hash, PartialOrd, Ord, Structural)]
pub struct OverlayAddress {
    pub a: u8,
    pub b: u8,
    pub c: u8,
    pub d: u8,
}

/// The address of the `i`-th overlay slot of the machine with registry
/// index `mi`: `10 . mi . i / 254 . i % 254 + 1`.
pub open spec fn overlay_addr(mi: nat, i: nat) -> OverlayAddress {
    OverlayAddress { a: 10, b: mi as u8, c: (i / 254) as u8, d: (i % 254 + 1) as u8 }
}

/// The dotted-decimal text of an address.
pub open spec fn addr_text(ad: OverlayAddress) -> Seq<char> {
    dec_digits(ad.a as nat) + "."@ + dec_digits(ad.b as nat) + "."@ + dec_digits(ad.c as nat)
        + "."@ + dec_digits(ad.d as nat)
}

/// Appends the dotted-decimal text of `ad` to `s`.
pub fn append_addr(s: &mut String, ad: &OverlayAddress)
    ensures
        final(s)@ == old(s)@ + addr_text(*ad),
{
    append_dec_u64(s, ad.a as u64);
    s.append(".");
    append_dec_u64(s, ad.b as u64);
    s.append(".");
    append_dec_u64(s, ad.c as u64);
    s.append(".");
    append_dec_u64(s, ad.d as u64);
    proof {
        assert(s@ =~= old(s)@ + addr_text(*ad));
    }
}

/// The `i`-th overlay address of `machine`.
pub fn machine_address_for_idx(machine: Machine, idx: u32) -> (r: OverlayAddress)
    requires
        idx < MAX_ADDRESSES_PER_MACHINE,
    ensures
        r == overlay_addr(machine.spec_index(), idx as nat),
{
    proof {
        crate::machine::lemma_machine_index_bound(machine);
    }
    let b = machine.index() as u8;
    let c = (idx / 254) as u8;
    let d = (idx % 254 + 1) as u8;
    OverlayAddress { a: 10, b, c, d }
}

/// The machine that owns an overlay address: the registry entry named by
/// the second octet.
pub fn machine_from_addr(addr: &OverlayAddress) -> (r: Option<Machine>)
    ensures
        r == Machine::spec_from_index(addr.b as nat),
{
    Machine::from_index(addr.b as usize)
}

/// A machine's own addresses decode back to it: the machine is recoverable
/// from any address it owns.
pub proof fn lemma_machine_from_addr_roundtrip(m: Machine, i: nat)
    ensures
        Machine::spec_from_index(overlay_addr(m.spec_index(), i).b as nat) == Some(m),
{
    crate::machine::lemma_machine_index_bound(m);
    crate::machine::lemma_from_index_roundtrip(m);
}

/// How many addresses `m` receives among `n_machines` machines.
pub open spec fn spec_machine_count(
    policy: AddressAllocationPolicy,
    m: Machine,
    n_machines: nat,
) -> nat {
    match policy {
        AddressAllocationPolicy::PerCpu(n) => (n as nat) * m.spec_cpus(),
        AddressAllocationPolicy::PerMachine(n) => n as nat,
        AddressAllocationPolicy::Total(n) => if n_machines == 0 {
            0
        } else {
            ((n + n_machines - 1) as nat) / n_machines
        },
    }
}

/// The sum of a count sequence.
pub open spec fn sum_counts(s: Seq<usize>) -> int
    decreases s.len(),
{
    if s.len() == 0 {
        0
    } else {
        sum_counts(s.drop_last()) + s.last()
    }
}

/// A planning failure.
#[derive(Debug, Clone, PartialEq, Eq, Structural)]
pub enum PlanningError {
    /// A machine would receive more addresses than two octets encode.
    AddressCountOverflow { count: u64 },
    /// The global address count does not fit the address space.
    TooManyAddresses,
    /// The latency matrix is not as wide as the global address count.
    DimensionMismatch { addresses: usize, matrix: usize },
}

/// The address plan: every chosen machine with its address count, the
/// offset of its block in the global enumeration, and the global address
/// list itself, machine-major.
pub struct AddressPlan {
    pub machines: Vec<Machine>,
    pub counts: Vec<usize>,
    pub offsets: Vec<usize>,
    pub total: usize,
    pub global_addresses: Vec<OverlayAddress>,
}

impl AddressPlan {
    /// Structural soundness: counts, offsets and addresses agree.
    pub open spec fn wf(self) -> bool {
        &&& self.counts@.len() == self.machines@.len()
        &&& self.offsets@.len() == self.machines@.len()
        &&& forall|i: int|
            0 <= i < self.machines@.len() ==> #[trigger] self.offsets@[i] == sum_counts(
                self.counts@.take(i),
            )
        &&& self.total == sum_counts(self.counts@)
        &&& self.global_addresses@.len() == self.total
        &&& forall|i: int|
            0 <= i < self.machines@.len() ==> #[trigger] self.counts@[i]
                <= MAX_ADDRESSES_PER_MACHINE
        &&& forall|i: int, j: int|
            0 <= i < self.machines@.len() && 0 <= j < self.counts@[i]
                ==> #[trigger] self.global_addresses@[self.offsets@[i] + j] == overlay_addr(
                self.machines@[i].spec_index(),
                j as nat,
            )
    }
}

/// Sums grow by the appended element.
pub proof fn lemma_sum_counts_take_step(s: Seq<usize>, i: int)
    requires
        0 <= i < s.len(),
    ensures
        sum_counts(s.take(i + 1)) == sum_counts(s.take(i)) + s[i],
{
    assert(s.take(i + 1).drop_last() =~= s.take(i));
    assert(s.take(i + 1).last() == s[i]);
}

/// Every count is non-negative, so sums are monotone in the prefix.
pub proof fn lemma_sum_counts_nonneg(s: Seq<usize>)
    ensures
        sum_counts(s) >= 0,
    decreases s.len(),
{
    if s.len() > 0 {
        lemma_sum_counts_nonneg(s.drop_last());
    }
}

/// The block of machine `i` lies inside the global address list.
pub proof fn lemma_block_in_range(s: Seq<usize>, i: int)
    requires
        0 <= i < s.len(),
    ensures
        sum_counts(s.take(i)) + s[i] <= sum_counts(s),
        sum_counts(s.take(i)) >= 0,
    decreases s.len(),
{
    lemma_sum_counts_nonneg(s.take(i));
    lemma_sum_counts_take_step(s, i);
    lemma_sum_counts_prefix(s, i + 1);
}

/// Prefix sums are monotone in the prefix length.
pub proof fn lemma_sum_counts_prefix_mono(s: Seq<usize>, a: int, b: int)
    requires
        0 <= a <= b <= s.len(),
    ensures
        sum_counts(s.take(a)) <= sum_counts(s.take(b)),
    decreases b - a,
{
    if a < b {
        lemma_sum_counts_take_step(s, a);
        lemma_sum_counts_prefix_mono(s, a + 1, b);
    }
}

/// A prefix sums to no more than the whole.
pub proof fn lemma_sum_counts_prefix(s: Seq<usize>, i: int)
    requires
        0 <= i <= s.len(),
    ensures
        sum_counts(s.take(i)) <= sum_counts(s),
    decreases s.len() - i,
{
    if i == s.len() {
        assert(s.take(i) =~= s);
    } else {
        lemma_sum_counts_take_step(s, i);
        lemma_sum_counts_prefix(s, i + 1);
    }
}

/// Computes the per-machine address counts and the global address list.
/// Fails when a machine's count exceeds what two octets encode, or the
/// total does not fit.
pub fn plan_addresses(machines: &Vec<Machine>, policy: &AddressAllocationPolicy) -> (r: Result<
    AddressPlan,
    PlanningError,
>)
    ensures
        r matches Ok(p) ==> {
            &&& p.wf()
            &&& p.machines@ == machines@
            &&& forall|i: int|
                0 <= i < machines@.len() ==> #[trigger] p.counts@[i] == spec_machine_count(
                    *policy,
                    machines@[i],
                    machines@.len(),
                )
        },
        r matches Err(e) ==> match e {
            PlanningError::AddressCountOverflow { count } => exists|i: int|
                0 <= i < machines@.len() && #[trigger] spec_machine_count(*policy, machines@[i],
                    machines@.len()) == count && count > MAX_ADDRESSES_PER_MACHINE,
            PlanningError::TooManyAddresses => spec_total_count(*policy, machines@) > usize::MAX,
            PlanningError::DimensionMismatch { .. } => false,
        },
        (forall|i: int|
            0 <= i < machines@.len() ==> #[trigger] spec_machine_count(*policy, machines@[i],
                machines@.len()) <= MAX_ADDRESSES_PER_MACHINE) && spec_total_count(
            *policy,
            machines@,
        ) <= usize::MAX ==> r is Ok,
{
    let n = machines.len();
    let mut counts: Vec<usize> = Vec::new();
    let mut i: usize = 0;
    while i < n
        invariant
            n == machines@.len(),
            i <= n,
            counts@.len() == i,
            forall|j: int|
                0 <= j < i ==> #[trigger] counts@[j] == spec_machine_count(*policy, machines@[j],
                    n as nat),
            forall|j: int| 0 <= j < i ==> #[trigger] counts@[j] <= MAX_ADDRESSES_PER_MACHINE,
        decreases n - i,
    {
        let m = machines[i];
        let c64: u64 = match policy {
            AddressAllocationPolicy::PerCpu(k) => {
                let cp = m.cpus();
                proof {
                    assert((*k as int) * (cp as int) <= 4294967295 * 4294967295int)
                        by (nonlinear_arith)
                        requires
                            *k as int <= 4294967295,
                            cp as int <= 4294967295,
                    ;
                }
                (*k as u64) * (cp as u64)
            },
            AddressAllocationPolicy::PerMachine(k) => *k as u64,
            AddressAllocationPolicy::Total(k) => {
                if *k == 0 {
                    proof {
                        assert((n as int - 1) / (n as int) == 0) by (nonlinear_arith)
                            requires
                                n as int >= 1,
                        ;
                    }
                    0
                } else {
                    let q = ((*k - 1) as u64) / (n as u64) + 1;
                    proof {
                        let kk = *k as int;
                        let nn = n as int;
                        vstd::arithmetic::div_mod::lemma_div_plus_one(kk - 1, nn);
                        assert(1 + (kk - 1) / nn == (nn + (kk - 1)) / nn);
                        assert(nn + (kk - 1) == kk + nn - 1);
                    }
                    q
                }
            },
        };
        proof {
            assert(c64 as nat == spec_machine_count(*policy, machines@[i as int], n as nat));
        }
        if c64 > MAX_ADDRESSES_PER_MACHINE as u64 {
            return Err(PlanningError::AddressCountOverflow { count: c64 });
        }
        counts.push(c64 as usize);
        i += 1;
    }
    proof {
        assert(counts@.take(i as int) =~= counts@);
    }

    // offsets and total
    let mut offsets: Vec<usize> = Vec::new();
    let mut total: usize = 0;
    let mut i: usize = 0;
    while i < n
        invariant
            n == machines@.len(),
            counts@.len() == n,
            i <= n,
            offsets@.len() == i,
            forall|j: int| 0 <= j < i ==> #[trigger] offsets@[j] == sum_counts(counts@.take(j)),
            total == sum_counts(counts@.take(i as int)),
            forall|j: int| 0 <= j < n ==> #[trigger] counts@[j] <= MAX_ADDRESSES_PER_MACHINE,
            forall|j: int|
                0 <= j < n ==> #[trigger] counts@[j] == spec_machine_count(*policy, machines@[j],
                    n as nat),
        decreases n - i,
    {
        offsets.push(total);
        let c = counts[i];
        proof {
            lemma_sum_counts_take_step(counts@, i as int);
        }
        if c > usize::MAX - total {
            proof {
                lemma_sum_counts_prefix(counts@, i + 1);
                assert(sum_counts(counts@) > usize::MAX);
                lemma_sum_counts_as_int(
                    counts@,
                    Seq::new(
                        machines@.len(),
                        |j: int| spec_machine_count(*policy, machines@[j], machines@.len())
                            as int,
                    ),
                );
            }
            return Err(PlanningError::TooManyAddresses);
        }
        total = total + c;
        i += 1;
    }
    proof {
        assert(counts@.take(n as int) =~= counts@);
    }

    // the global enumeration, machine-major
    let mut global_addresses: Vec<OverlayAddress> = Vec::new();
    let mut i: usize = 0;
    while i < n
        invariant
            n == machines@.len(),
            counts@.len() == n,
            offsets@.len() == n,
            i <= n,
            total == sum_counts(counts@),
            forall|j: int| 0 <= j < n ==> #[trigger] offsets@[j] == sum_counts(counts@.take(j)),
            forall|j: int| 0 <= j < n ==> #[trigger] counts@[j] <= MAX_ADDRESSES_PER_MACHINE,
            forall|j: int|
                0 <= j < n ==> #[trigger] counts@[j] == spec_machine_count(*policy, machines@[j],
                    n as nat),
            global_addresses@.len() == sum_counts(counts@.take(i as int)),
            forall|j: int, l: int|
                0 <= j < i && 0 <= l < counts@[j]
                    ==> #[trigger] global_addresses@[offsets@[j] + l] == overlay_addr(
                    machines@[j].spec_index(),
                    l as nat,
                ),
        decreases n - i,
    {
        let m = machines[i];
        let cnt = counts[i];
        proof {
            lemma_sum_counts_nonneg(counts@.take(i as int));
            lemma_block_in_range(counts@, i as int);
        }
        let mut l: usize = 0;
        while l < cnt
            invariant
                n == machines@.len(),
                counts@.len() == n,
                offsets@.len() == n,
                i < n,
                m == machines@[i as int],
                cnt == counts@[i as int],
                cnt <= MAX_ADDRESSES_PER_MACHINE,
                l <= cnt,
                forall|j: int|
                    0 <= j < n ==> #[trigger] offsets@[j] == sum_counts(counts@.take(j)),
                offsets@[i as int] == sum_counts(counts@.take(i as int)),
                global_addresses@.len() == offsets@[i as int] + l,
                forall|j: int, q: int|
                    0 <= j < i && 0 <= q < counts@[j]
                        ==> #[trigger] global_addresses@[offsets@[j] + q] == overlay_addr(
                        machines@[j].spec_index(),
                        q as nat,
                    ),
                forall|q: int|
                    0 <= q < l ==> #[trigger] global_addresses@[offsets@[i as int] + q]
                        == overlay_addr(m.spec_index(), q as nat),
            decreases cnt - l,
        {
            let ad = machine_address_for_idx(m, l as u32);
            let ghost olds = global_addresses@;
            global_addresses.push(ad);
            proof {
                assert forall|j: int, q: int|
                    0 <= j < i && 0 <= q < counts@[j] implies #[trigger] global_addresses@[
                    offsets@[j] + q] == overlay_addr(machines@[j].spec_index(), q as nat) by {
                    lemma_sum_counts_take_step(counts@, j);
                    lemma_sum_counts_prefix_mono(counts@, j + 1, i as int);
                    lemma_sum_counts_nonneg(counts@.take(j));
                    assert(offsets@[j] + q < olds.len());
                    assert(global_addresses@[offsets@[j] + q] == olds[offsets@[j] + q]);
                }
                assert forall|q: int|
                    0 <= q < l + 1 implies #[trigger] global_addresses@[offsets@[i as int] + q]
                    == overlay_addr(m.spec_index(), q as nat) by {
                    if q < l {
                        assert(global_addresses@[offsets@[i as int] + q] == olds[offsets@[
                            i as int] + q]);
                    } else {
                        assert(offsets@[i as int] + q == olds.len());
                        assert(global_addresses@[offsets@[i as int] + q] == ad);
                    }
                }
            }
            l += 1;
        }
        proof {
            lemma_sum_counts_take_step(counts@, i as int);
            assert forall|j: int, q: int|
                0 <= j < i + 1 && 0 <= q < counts@[j] implies #[trigger] global_addresses@[
                offsets@[j] + q] == overlay_addr(machines@[j].spec_index(), q as nat) by {
                if j < i {
                } else {
                    assert(global_addresses@[offsets@[i as int] + q] == overlay_addr(
                        m.spec_index(),
                        q as nat,
                    ));
                }
            }
        }
        i += 1;
    }
    proof {
        assert(counts@.take(n as int) =~= counts@);
    }
    Ok(AddressPlan { machines: machines.clone(), counts, offsets, total, global_addresses })
}

/// The sum of an integer sequence.
pub open spec fn sum_int(s: Seq<int>) -> int
    decreases s.len(),
{
    if s.len() == 0 {
        0
    } else {
        sum_int(s.drop_last()) + s.last()
    }
}

/// The total address count a policy yields over a machine list.
pub open spec fn spec_total_count(policy: AddressAllocationPolicy, machines: Seq<Machine>) -> int {
    sum_int(
        Seq::new(
            machines.len(),
            |i: int| spec_machine_count(policy, machines[i], machines.len()) as int,
        ),
    )
}

/// Elementwise equal sequences have equal sums.
pub proof fn lemma_sum_counts_as_int(s: Seq<usize>, t: Seq<int>)
    requires
        s.len() == t.len(),
        forall|j: int| 0 <= j < s.len() ==> s[j] as int == #[trigger] t[j],
    ensures
        sum_counts(s) == sum_int(t),
    decreases s.len(),
{
    if s.len() > 0 {
        lemma_sum_counts_as_int(s.drop_last(), t.drop_last());
    }
}


/// Distinct machines have distinct registry indices.
pub proof fn lemma_machine_index_injective(m1: Machine, m2: Machine)
    requires
        m1 != m2,
    ensures
        m1.spec_index() != m2.spec_index(),
{
    crate::machine::lemma_from_index_roundtrip(m1);
    crate::machine::lemma_from_index_roundtrip(m2);
}

/// The address formula is injective over machine and slot.
pub proof fn lemma_overlay_addr_injective(m1: Machine, j1: nat, m2: Machine, j2: nat)
    requires
        j1 < MAX_ADDRESSES_PER_MACHINE,
        j2 < MAX_ADDRESSES_PER_MACHINE,
        m1 != m2 || j1 != j2,
    ensures
        overlay_addr(m1.spec_index(), j1) != overlay_addr(m2.spec_index(), j2),
{
    crate::machine::lemma_machine_index_bound(m1);
    crate::machine::lemma_machine_index_bound(m2);
    if m1 != m2 {
        lemma_machine_index_injective(m1, m2);
    } else {
        assert(j1 / 254 <= 253 && j2 / 254 <= 253) by (nonlinear_arith)
            requires
                j1 < 64516,
                j2 < 64516,
        ;
        assert(j1 % 254 < 254 && j2 % 254 < 254) by (nonlinear_arith);
        if overlay_addr(m1.spec_index(), j1) == overlay_addr(m2.spec_index(), j2) {
            assert(j1 / 254 == j2 / 254);
            assert(j1 % 254 == j2 % 254);
            assert(j1 == j2) by (nonlinear_arith)
                requires
                    j1 / 254 == j2 / 254,
                    j1 % 254 == j2 % 254,
            ;
        }
    }
}

/// Every global position falls in exactly one machine's block.
pub proof fn lemma_position_owner(counts: Seq<usize>, g: int)
    requires
        0 <= g < sum_counts(counts),
    ensures
        exists|i: int|
            0 <= i < counts.len() && #[trigger] sum_counts(counts.take(i)) <= g < sum_counts(
                counts.take(i),
            ) + counts[i],
    decreases counts.len(),
{
    let pre = counts.drop_last();
    if g < sum_counts(pre) {
        lemma_position_owner(pre, g);
        let i = choose|i: int|
            0 <= i < pre.len() && #[trigger] sum_counts(pre.take(i)) <= g < sum_counts(
                pre.take(i),
            ) + pre[i];
        assert(pre.take(i) =~= counts.take(i));
        assert(sum_counts(counts.take(i)) <= g < sum_counts(counts.take(i)) + counts[i]);
    } else {
        let i = counts.len() - 1;
        assert(counts.take(i) =~= pre);
        assert(sum_counts(counts.take(i)) <= g < sum_counts(counts.take(i)) + counts[i]);
    }
}

/// With pairwise-distinct machines the plan's global addresses are
/// pairwise distinct: every address identifies one machine and slot.
pub proof fn lemma_plan_addresses_distinct(p: AddressPlan)
    requires
        p.wf(),
        forall|i1: int, i2: int|
            0 <= i1 < i2 < p.machines@.len() ==> p.machines@[i1] != p.machines@[i2],
    ensures
        forall|g1: int, g2: int|
            0 <= g1 < g2 < p.global_addresses@.len() ==> p.global_addresses@[g1]
                != p.global_addresses@[g2],
{
    assert forall|g1: int, g2: int|
        0 <= g1 < g2 < p.global_addresses@.len() implies p.global_addresses@[g1]
        != p.global_addresses@[g2] by {
        lemma_position_owner(p.counts@, g1);
        lemma_position_owner(p.counts@, g2);
        let i1 = choose|i: int|
            0 <= i < p.counts@.len() && #[trigger] sum_counts(p.counts@.take(i)) <= g1
                < sum_counts(p.counts@.take(i)) + p.counts@[i];
        let i2 = choose|i: int|
            0 <= i < p.counts@.len() && #[trigger] sum_counts(p.counts@.take(i)) <= g2
                < sum_counts(p.counts@.take(i)) + p.counts@[i];
        let j1 = g1 - p.offsets@[i1];
        let j2 = g2 - p.offsets@[i2];
        assert(g1 == p.offsets@[i1] + j1 && 0 <= j1 < p.counts@[i1]);
        assert(g2 == p.offsets@[i2] + j2 && 0 <= j2 < p.counts@[i2]);
        assert(p.global_addresses@[p.offsets@[i1] + j1] == overlay_addr(
            p.machines@[i1].spec_index(),
            j1 as nat,
        ));
        assert(p.global_addresses@[p.offsets@[i2] + j2] == overlay_addr(
            p.machines@[i2].spec_index(),
            j2 as nat,
        ));
        if i1 == i2 {
            lemma_overlay_addr_injective(
                p.machines@[i1],
                j1 as nat,
                p.machines@[i2],
                j2 as nat,
            );
        } else {
            assert(p.machines@[i1] != p.machines@[i2]);
            lemma_overlay_addr_injective(
                p.machines@[i1],
                j1 as nat,
                p.machines@[i2],
                j2 as nat,
            );
        }
    }
}


/// Whether `t` is a well-formed dotted-quad octet: decimal digits, value
/// at most 255, no leading zero.
pub open spec fn octet_ok(t: Seq<char>) -> bool {
    &&& t.len() >= 1
    &&& all_digits(t)
    &&& digits_val(t) <= 255
    &&& (t[0] != '0' || t.len() == 1)
}

/// The address a dotted-quad string denotes, if it is well-formed: four
/// octets separated by single dots.
pub open spec fn spec_parse_addr(s: Seq<char>) -> Option<OverlayAddress> {
    let d1 = find_dot(s, 0);
    let d2 = find_dot(s, d1 + 1);
    let d3 = find_dot(s, d2 + 1);
    if d3 >= s.len() || find_dot(s, d3 + 1) < s.len() {
        None
    } else {
        let t0 = s.subrange(0, d1);
        let t1 = s.subrange(d1 + 1, d2);
        let t2 = s.subrange(d2 + 1, d3);
        let t3 = s.subrange(d3 + 1, s.len() as int);
        if octet_ok(t0) && octet_ok(t1) && octet_ok(t2) && octet_ok(t3) {
            Some(
                OverlayAddress {
                    a: digits_val(t0) as u8,
                    b: digits_val(t1) as u8,
                    c: digits_val(t2) as u8,
                    d: digits_val(t3) as u8,
                },
            )
        } else {
            None
        }
    }
}

/// Parses one dotted-quad octet.
fn parse_octet(t: &str) -> (r: Option<u8>)
    ensures
        r is Some <==> octet_ok(t@),
        r matches Some(v) ==> v == digits_val(t@),
{
    let len = t.unicode_len();
    if len == 0 {
        return None;
    }
    let c0 = t.get_char(0);
    let cv0 = c0 as u32;
    // the numeral must open with a digit: a sign is no octet
    if cv0 < 48 || cv0 > 57 {
        return None;
    }
    if c0 == '0' && len != 1 {
        return None;
    }
    proof {
        assert(crate::text::int_digits(t@) == t@);
    }
    match parse_u32(t) {
        Some(v) if v <= 255 => Some(v as u8),
        Some(_) => None,
        None => {
            proof {
                if all_digits(t@) {
                    crate::text::lemma_digits_val_monotonic(t@, t@.len() as int);
                }
            }
            None
        },
    }
}

/// Parses a dotted-quad address as the remote listing prints it.
pub fn parse_overlay_addr(s: &str) -> (r: Option<OverlayAddress>)
    ensures
        r == spec_parse_addr(s@),
{
    let len = s.unicode_len();
    // the three dots
    let mut d1: usize = 0;
    while d1 < len && s.get_char(d1) != '.'
        invariant
            len == s@.len(),
            d1 <= len,
            forall|q: int| 0 <= q < d1 ==> s@[q] != '.',
        decreases len - d1,
    {
        d1 += 1;
    }
    proof {
        lemma_find_dot_unique(s@, 0, d1 as int);
    }
    if d1 == len {
        return None;
    }
    let mut d2: usize = d1 + 1;
    while d2 < len && s.get_char(d2) != '.'
        invariant
            len == s@.len(),
            d1 + 1 <= d2 <= len,
            forall|q: int| d1 + 1 <= q < d2 ==> s@[q] != '.',
        decreases len - d2,
    {
        d2 += 1;
    }
    proof {
        lemma_find_dot_unique(s@, d1 as int + 1, d2 as int);
    }
    if d2 == len {
        return None;
    }
    let mut d3: usize = d2 + 1;
    while d3 < len && s.get_char(d3) != '.'
        invariant
            len == s@.len(),
            d2 + 1 <= d3 <= len,
            forall|q: int| d2 + 1 <= q < d3 ==> s@[q] != '.',
        decreases len - d3,
    {
        d3 += 1;
    }
    proof {
        lemma_find_dot_unique(s@, d2 as int + 1, d3 as int);
    }
    if d3 == len {
        return None;
    }
    // no fourth dot
    let mut d4: usize = d3 + 1;
    while d4 < len && s.get_char(d4) != '.'
        invariant
            len == s@.len(),
            d3 + 1 <= d4 <= len,
            forall|q: int| d3 + 1 <= q < d4 ==> s@[q] != '.',
        decreases len - d4,
    {
        d4 += 1;
    }
    if d4 < len {
        proof {
            lemma_find_dot(s@, d3 as int + 1);
            assert(find_dot(s@, d3 as int + 1) <= d4 < s@.len());
        }
        return None;
    }
    proof {
        lemma_find_dot_unique(s@, d3 as int + 1, len as int);
    }
    let t0 = s.substring_char(0, d1);
    let t1 = s.substring_char(d1 + 1, d2);
    let t2 = s.substring_char(d2 + 1, d3);
    let t3 = s.substring_char(d3 + 1, len);
    let a = match parse_octet(t0) {
        Some(v) => v,
        None => {
            return None;
        },
    };
    let b = match parse_octet(t1) {
        Some(v) => v,
        None => {
            return None;
        },
    };
    let c = match parse_octet(t2) {
        Some(v) => v,
        None => {
            return None;
        },
    };
    let d = match parse_octet(t3) {
        Some(v) => v,
        None => {
            return None;
        },
    };
    Some(OverlayAddress { a, b, c, d })
}

} // verus!
