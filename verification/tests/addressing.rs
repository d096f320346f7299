use oar_p2p::address_plan::{machine_address_for_idx, machine_from_addr, OverlayAddress};
use oar_p2p::machine::Machine;
use oar_p2p::scripts::{listing_line, sort_listing};

#[test]
fn registry_round_trips() {
    assert_eq!(Machine::Gengar1.hostname(), "gengar-1");
    assert_eq!(Machine::Gengar1.index(), 16);
    assert_eq!(Machine::Gengar1.cpus(), 8);
    assert_eq!(Machine::Gengar1.interface(), "bond0");
    assert_eq!(Machine::from_hostname("gengar-1"), Some(Machine::Gengar1));
    assert_eq!(Machine::from_hostname("unknown-host"), None);
    assert_eq!(Machine::from_index(16), Some(Machine::Gengar1));
    assert_eq!(Machine::from_index(200), None);
    assert_eq!(Machine::Snorlax03.index(), 59);
    assert_eq!(Machine::Alakazam01.index(), 0);
}

#[test]
fn address_formula_embeds_machine_index() {
    let first = machine_address_for_idx(Machine::Gengar1, 0);
    assert_eq!(first, OverlayAddress { a: 10, b: 16, c: 0, d: 1 });
    let last_of_octet = machine_address_for_idx(Machine::Gengar1, 253);
    assert_eq!(last_of_octet, OverlayAddress { a: 10, b: 16, c: 0, d: 254 });
    let wrapped = machine_address_for_idx(Machine::Gengar1, 254);
    assert_eq!(wrapped, OverlayAddress { a: 10, b: 16, c: 1, d: 1 });
}

#[test]
fn machine_is_recovered_from_the_second_octet() {
    let ad = machine_address_for_idx(Machine::Oddish1, 17);
    assert_eq!(machine_from_addr(&ad), Some(Machine::Oddish1));
    let stray = OverlayAddress { a: 10, b: 250, c: 0, d: 1 };
    assert_eq!(machine_from_addr(&stray), None);
}

#[test]
fn parses_dotted_quad_addresses() {
    assert_eq!(
        oar_p2p::address_plan::parse_overlay_addr("10.16.0.1"),
        Some(OverlayAddress { a: 10, b: 16, c: 0, d: 1 })
    );
    assert_eq!(
        oar_p2p::address_plan::parse_overlay_addr("10.255.3.254"),
        Some(OverlayAddress { a: 10, b: 255, c: 3, d: 254 })
    );
    assert_eq!(oar_p2p::address_plan::parse_overlay_addr(""), None);
    assert_eq!(oar_p2p::address_plan::parse_overlay_addr("10.16.0"), None);
    assert_eq!(oar_p2p::address_plan::parse_overlay_addr("10.16.0.1.2"), None);
    assert_eq!(oar_p2p::address_plan::parse_overlay_addr("10.16.0.256"), None);
    assert_eq!(oar_p2p::address_plan::parse_overlay_addr("10.16.0.01"), None);
    assert_eq!(oar_p2p::address_plan::parse_overlay_addr("10.16.a.1"), None);
}

#[test]
fn octets_reject_signs() {
    assert_eq!(oar_p2p::address_plan::parse_overlay_addr("10.+16.0.1"), None);
    assert_eq!(oar_p2p::address_plan::parse_overlay_addr("+10.16.0.1"), None);
}

#[test]
fn listing_sorts_by_machine_then_address() {
    let mut rows = vec![
        (Machine::Gengar2, OverlayAddress { a: 10, b: 17, c: 0, d: 1 }),
        (Machine::Gengar1, OverlayAddress { a: 10, b: 16, c: 0, d: 2 }),
        (Machine::Gengar1, OverlayAddress { a: 10, b: 16, c: 0, d: 1 }),
    ];
    sort_listing(&mut rows);
    assert_eq!(
        rows,
        vec![
            (Machine::Gengar1, OverlayAddress { a: 10, b: 16, c: 0, d: 1 }),
            (Machine::Gengar1, OverlayAddress { a: 10, b: 16, c: 0, d: 2 }),
            (Machine::Gengar2, OverlayAddress { a: 10, b: 17, c: 0, d: 1 }),
        ]
    );
    assert_eq!(listing_line(Machine::Gengar1, &rows[0].1), "gengar-1 10.16.0.1");
}
