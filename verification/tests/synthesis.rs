use oar_p2p::address_allocation_policy::AddressAllocationPolicy;
use oar_p2p::address_plan::{plan_addresses, OverlayAddress, PlanningError};
use oar_p2p::config::machine_generate_configs;
use oar_p2p::latency_matrix::{LatencyMatrix, TimeUnit};
use oar_p2p::machine::Machine;

fn addr(a: u8, b: u8, c: u8, d: u8) -> OverlayAddress {
    OverlayAddress { a, b, c, d }
}

fn nft_script(elements: &[(&str, &str, usize)]) -> String {
    let mut s = String::new();
    s.push_str("table ip oar-p2p {\n");
    s.push_str("\tmap mark_pairs {\n");
    s.push_str("\t\ttype ipv4_addr . ipv4_addr : mark\n");
    s.push_str("\t\telements = {\n");
    for (src, dst, mark) in elements {
        s.push_str(&format!("\t\t\t{} . {} : {},\n", src, dst, mark));
    }
    s.push_str("\t\t}\n");
    s.push_str("\t}\n");
    s.push_str("\n");
    s.push_str("\tchain postrouting {\n");
    s.push_str("\t\ttype filter hook postrouting priority mangle -1\n");
    s.push_str("\t\tpolicy accept\n");
    s.push_str("\t\tmeta mark set ip saddr . ip daddr map @mark_pairs counter\n");
    s.push_str("\t}\n");
    s.push_str("}\n");
    s
}

fn tc_header(iface: &str) -> Vec<String> {
    vec![
        format!("qdisc add dev {} root handle 1: htb default 9999", iface),
        format!("class add dev {} parent 1: classid 1:9999 htb rate 10gbit", iface),
    ]
}

fn tc_bucket(iface: &str, k: usize, ms: u64) -> Vec<String> {
    vec![
        format!("class add dev {} parent 1: classid 1:{} htb rate 10gbit", iface, k),
        format!("qdisc add dev {} parent 1:{} handle {}: netem delay {}ms", iface, k, k + 1, ms),
        format!("filter add dev {} parent 1:0 prio 1 handle {} fw flowid 1:{}", iface, k, k),
    ]
}

// One machine, one address, zero matrix: no pairs, the default class only,
// an empty mark map.
#[test]
fn one_machine_one_address_zero_matrix() {
    let machines = vec![Machine::Gengar1];
    let plan = plan_addresses(&machines, &AddressAllocationPolicy::PerMachine(1)).unwrap();
    assert_eq!(plan.global_addresses, vec![addr(10, 16, 0, 1)]);

    let matrix = LatencyMatrix::parse("0", TimeUnit::Milliseconds).unwrap();
    let configs = machine_generate_configs(&matrix, &plan).unwrap();
    assert_eq!(configs.len(), 1);
    let config = &configs[0];
    assert_eq!(config.machine, Machine::Gengar1);
    assert_eq!(config.addresses, vec![addr(10, 16, 0, 1)]);
    assert_eq!(
        config.ip_commands,
        vec![
            "route add 10.0.0.0/8 dev bond0".to_string(),
            "addr add 10.16.0.1/32 dev bond0".to_string(),
        ]
    );
    let mut tc = tc_header("lo");
    tc.extend(tc_header("bond0"));
    assert_eq!(config.tc_commands, tc);
    assert_eq!(config.nft_script, nft_script(&[]));
}

// Two machines, one address each, symmetric five milliseconds.
#[test]
fn two_machines_symmetric_latency() {
    let machines = vec![Machine::Gengar1, Machine::Gengar2];
    let plan = plan_addresses(&machines, &AddressAllocationPolicy::PerMachine(1)).unwrap();
    assert_eq!(
        plan.global_addresses,
        vec![addr(10, 16, 0, 1), addr(10, 17, 0, 1)]
    );

    let matrix = LatencyMatrix::parse("0 5\n5 0", TimeUnit::Milliseconds).unwrap();
    let configs = machine_generate_configs(&matrix, &plan).unwrap();
    assert_eq!(configs.len(), 2);

    let first = &configs[0];
    assert_eq!(first.machine, Machine::Gengar1);
    assert_eq!(first.nft_script, nft_script(&[("10.16.0.1", "10.17.0.1", 1)]));
    let mut tc = tc_header("lo");
    tc.extend(tc_bucket("lo", 1, 5));
    tc.extend(tc_header("bond0"));
    tc.extend(tc_bucket("bond0", 1, 5));
    assert_eq!(first.tc_commands, tc);

    let second = &configs[1];
    assert_eq!(second.machine, Machine::Gengar2);
    assert_eq!(second.nft_script, nft_script(&[("10.17.0.1", "10.16.0.1", 1)]));
}

// Two machines, two addresses each, three distinct values: buckets follow
// the first-seen order of the pair enumeration, and every pair lands in
// the right bucket.
#[test]
fn two_machines_asymmetric_first_seen_buckets() {
    let machines = vec![Machine::Gengar1, Machine::Gengar2];
    let plan = plan_addresses(&machines, &AddressAllocationPolicy::PerMachine(2)).unwrap();
    assert_eq!(
        plan.global_addresses,
        vec![
            addr(10, 16, 0, 1),
            addr(10, 16, 0, 2),
            addr(10, 17, 0, 1),
            addr(10, 17, 0, 2),
        ]
    );

    let matrix = LatencyMatrix::parse(
        "0 1 2 5\n1 0 5 2\n2 5 0 1\n5 2 1 0",
        TimeUnit::Milliseconds,
    )
    .unwrap();
    let configs = machine_generate_configs(&matrix, &plan).unwrap();

    // machine 0 sees, in order: (0,1)=1, (0,2)=2, (0,3)=5, (1,0)=1,
    // (1,2)=5, (1,3)=2 -- buckets [1, 2, 5], marks 1, 2, 3.
    let first = &configs[0];
    assert_eq!(
        first.nft_script,
        nft_script(&[
            ("10.16.0.1", "10.16.0.2", 1),
            ("10.16.0.2", "10.16.0.1", 1),
            ("10.16.0.1", "10.17.0.1", 2),
            ("10.16.0.2", "10.17.0.2", 2),
            ("10.16.0.1", "10.17.0.2", 3),
            ("10.16.0.2", "10.17.0.1", 3),
        ])
    );
    let mut tc = tc_header("lo");
    tc.extend(tc_bucket("lo", 1, 1));
    tc.extend(tc_bucket("lo", 2, 2));
    tc.extend(tc_bucket("lo", 3, 5));
    tc.extend(tc_header("bond0"));
    tc.extend(tc_bucket("bond0", 1, 1));
    tc.extend(tc_bucket("bond0", 2, 2));
    tc.extend(tc_bucket("bond0", 3, 5));
    assert_eq!(first.tc_commands, tc);

    // machine 1 sees, in order: (2,0)=2, (2,1)=5, (2,3)=1, (3,0)=5,
    // (3,1)=2, (3,2)=1 -- buckets [2, 5, 1].
    let second = &configs[1];
    assert_eq!(
        second.nft_script,
        nft_script(&[
            ("10.17.0.1", "10.16.0.1", 1),
            ("10.17.0.2", "10.16.0.2", 1),
            ("10.17.0.1", "10.16.0.2", 2),
            ("10.17.0.2", "10.16.0.1", 2),
            ("10.17.0.1", "10.17.0.2", 3),
            ("10.17.0.2", "10.17.0.1", 3),
        ])
    );
}

// Address index wrap: the 255th address rolls into the next octet.
#[test]
fn address_index_wraps_into_third_octet() {
    let machines = vec![Machine::Gengar1];
    let plan = plan_addresses(&machines, &AddressAllocationPolicy::PerMachine(255)).unwrap();
    assert_eq!(plan.global_addresses.len(), 255);
    assert_eq!(plan.global_addresses[0], addr(10, 16, 0, 1));
    assert_eq!(plan.global_addresses[253], addr(10, 16, 0, 254));
    assert_eq!(plan.global_addresses[254], addr(10, 16, 1, 1));
}

// Matrix dimension mismatch: planning three addresses against a two-by-two
// matrix is a planning error.
#[test]
fn dimension_mismatch_is_planning_error() {
    let machines = vec![Machine::Gengar1];
    let plan = plan_addresses(&machines, &AddressAllocationPolicy::Total(3)).unwrap();
    assert_eq!(plan.total, 3);
    let matrix = LatencyMatrix::parse("0 5\n5 0", TimeUnit::Milliseconds).unwrap();
    match machine_generate_configs(&matrix, &plan) {
        Err(PlanningError::DimensionMismatch { addresses, matrix }) => {
            assert_eq!(addresses, 3);
            assert_eq!(matrix, 2);
        },
        other => panic!("expected DimensionMismatch, got {:?}", other.map(|_| ())),
    }
}

// Synthesising twice from the same inputs yields byte-identical outputs.
#[test]
fn synthesis_is_deterministic() {
    let machines = vec![Machine::Gengar1, Machine::Oddish1];
    let plan = plan_addresses(&machines, &AddressAllocationPolicy::PerMachine(2)).unwrap();
    let matrix = LatencyMatrix::parse(
        "0 7 3 9\n7 0 9 3\n3 9 0 7\n9 3 7 0",
        TimeUnit::Milliseconds,
    )
    .unwrap();
    let once = machine_generate_configs(&matrix, &plan).unwrap();
    let twice = machine_generate_configs(&matrix, &plan).unwrap();
    assert_eq!(once.len(), twice.len());
    for (a, b) in once.iter().zip(twice.iter()) {
        assert_eq!(a.machine, b.machine);
        assert_eq!(a.addresses, b.addresses);
        assert_eq!(a.ip_commands, b.ip_commands);
        assert_eq!(a.tc_commands, b.tc_commands);
        assert_eq!(a.nft_script, b.nft_script);
    }
}

// Per-CPU allocation multiplies by the machine's CPU count.
#[test]
fn per_cpu_allocation_counts() {
    let machines = vec![Machine::Gengar1, Machine::Oddish1];
    let plan = plan_addresses(&machines, &AddressAllocationPolicy::PerCpu(2)).unwrap();
    // gengar-1 has 8 CPUs, oddish-1 has 4.
    assert_eq!(plan.counts, vec![16, 8]);
    assert_eq!(plan.offsets, vec![0, 16]);
    assert_eq!(plan.total, 24);
}

// Total allocation apportions by ceiling division, possibly over-shooting.
#[test]
fn total_allocation_is_ceiling_division() {
    let machines = vec![Machine::Gengar1, Machine::Gengar2, Machine::Gengar3];
    let plan = plan_addresses(&machines, &AddressAllocationPolicy::Total(8)).unwrap();
    assert_eq!(plan.counts, vec![3, 3, 3]);
    assert_eq!(plan.total, 9);
}

// A machine cannot carry more addresses than two octets encode.
#[test]
fn per_machine_count_overflow_is_rejected() {
    let machines = vec![Machine::Gengar1];
    match plan_addresses(&machines, &AddressAllocationPolicy::PerMachine(70000)) {
        Err(PlanningError::AddressCountOverflow { count }) => assert_eq!(count, 70000),
        other => panic!("expected AddressCountOverflow, got {:?}", other.map(|_| ())),
    }
}
