use pixel_fluter::{totals, MacAddr, PortStats, Statistics, StatsDiffEngine, MAX_PORTS};

fn port(mac_last: u8, base: u64) -> PortStats {
    let mut p = PortStats::default();
    p.mac_addr = MacAddr([0x02, 0, 0, 0, 0, mac_last]);
    p.ipackets = base;
    p.opackets = base + 1;
    p.ibytes = base * 100;
    p.obytes = base * 50;
    p.imissed = base / 10;
    p.ierrors = 2;
    p.oerrors = 3;
    p.rx_nombuf = 4;
    for q in 0..16 {
        p.q_ipackets[q] = base + q as u64;
        p.q_opackets[q] = q as u64;
        p.q_ibytes[q] = base * (q as u64 + 1);
        p.q_obytes[q] = 7;
        p.q_errors[q] = q as u64 % 3;
    }
    p
}

fn statistics(ports: &[(usize, PortStats)]) -> Statistics {
    let mut s = Statistics { port_stats: [PortStats::default(); MAX_PORTS] };
    for (slot, p) in ports {
        s.port_stats[*slot] = *p;
    }
    s
}

#[test]
fn mac_addresses() {
    assert!(MacAddr::nil().is_nil());
    assert_eq!(MacAddr::broadcast(), MacAddr([0xFF; 6]));
    assert!(!MacAddr([0, 0, 0, 0, 0, 1]).is_nil());
    assert!(PortStats::default().mac_addr.is_nil());
}

#[test]
fn saturating_sub_clamps_a_reset_counter() {
    let mut previous = port(1, 0);
    previous.ipackets = 100;
    previous.q_ipackets[3] = 10;
    let mut current = port(1, 0);
    current.ipackets = 40;
    current.q_ipackets[3] = 15;
    current.obytes = 5;
    previous.obytes = 2;
    let diff = current.saturating_sub(&previous);
    assert_eq!(diff.ipackets, 0);
    assert_eq!(diff.q_ipackets[3], 5);
    assert_eq!(diff.obytes, 3);
    assert_eq!(diff.ierrors, 0);
    assert_eq!(diff.mac_addr, current.mac_addr);
}

#[test]
fn add_wraps_around() {
    let mut a = port(1, 10);
    a.ipackets = u64::MAX;
    a.q_errors[15] = u64::MAX - 1;
    let b = port(2, 3);
    let s = a.add(&b);
    assert_eq!(s.ipackets, 2);
    assert_eq!(s.opackets, 11 + 4);
    assert_eq!(s.q_errors[15], u64::MAX - 1);
    assert_eq!(s.q_ibytes[2], 10 * 3 + 3 * 3);
    assert_eq!(s.mac_addr, a.mac_addr);
}

#[test]
fn sum_of_ports() {
    let ports = [port(1, 10), port(2, 20), port(3, 30)];
    let s = PortStats::sum(&ports);
    assert!(s.mac_addr.is_nil());
    assert_eq!(s.ipackets, 60);
    assert_eq!(s.ibytes, 6000);
    assert_eq!(s.rx_nombuf, 12);
    assert_eq!(s.q_ipackets[5], 15 + 25 + 35);
    let empty = PortStats::sum(&[]);
    assert_eq!(empty.ipackets, 0);
}

#[test]
fn statistics_saturating_sub_per_slot() {
    let previous = statistics(&[(0, port(1, 50)), (4, port(5, 5))]);
    let current = statistics(&[(0, port(1, 60)), (4, port(5, 1))]);
    let diff = current.saturating_sub(&previous);
    assert_eq!(diff.port_stats[0].ipackets, 10);
    assert_eq!(diff.port_stats[0].ibytes, 1000);
    assert_eq!(diff.port_stats[4].ipackets, 0);
    assert_eq!(diff.port_stats[4].q_ibytes[0], 0);
    assert_eq!(diff.port_stats[4].mac_addr, MacAddr([2, 0, 0, 0, 0, 5]));
}

#[test]
fn active_ports_and_total() {
    let s = statistics(&[(2, port(3, 10)), (7, port(8, 20))]);
    let active = s.active_ports();
    assert_eq!(active.len(), 2);
    assert_eq!(active[0].ipackets, 10);
    assert_eq!(active[1].ipackets, 20);
    let total = s.total();
    assert_eq!(total.mac_addr, MacAddr::broadcast());
    assert_eq!(total.ipackets, 30);
    assert_eq!(total.q_ibytes[1], 10 * 2 + 20 * 2);
}

#[test]
fn engine_starts_with_a_zero_diff() {
    let start = statistics(&[(0, port(1, 1_000_000)), (31, port(9, 77))]);
    let engine = StatsDiffEngine::new(&start);
    for p in engine.diff.port_stats.iter() {
        assert_eq!(p.ipackets, 0);
        assert_eq!(p.ibytes, 0);
        assert!(p.q_ipackets.iter().all(|&c| c == 0));
        assert!(p.q_errors.iter().all(|&c| c == 0));
    }
    let rows = engine.rows();
    assert_eq!(rows.len(), 2);
    assert_eq!(rows[0].0.ipackets, 1_000_000);
    assert_eq!(rows[0].1.ipackets, 0);
    assert_eq!(rows[1].0.ipackets, 77);
}

#[test]
fn engine_tick_reports_the_rate() {
    let start = statistics(&[(0, port(1, 100))]);
    let mut engine = StatsDiffEngine::new(&start);
    let mut next = start;
    next.port_stats[0].ipackets = 40;
    next.port_stats[0].opackets = 150;
    engine.tick(&next);
    assert_eq!(engine.diff.port_stats[0].ipackets, 0);
    assert_eq!(engine.diff.port_stats[0].opackets, 49);
    assert_eq!(engine.current.port_stats[0].ipackets, 40);
    engine.tick(&next);
    assert_eq!(engine.diff.port_stats[0].opackets, 0);
}

#[test]
fn total_row_sums_the_active_diffs() {
    let start = statistics(&[(1, port(2, 10)), (3, port(4, 20)), (5, port(6, 30))]);
    let mut engine = StatsDiffEngine::new(&start);
    let mut next = statistics(&[(1, port(2, 13)), (3, port(4, 25)), (5, port(6, 30))]);
    next.port_stats[9].ipackets = 500; // a slot without address is not counted
    engine.tick(&next);
    let rows = engine.rows();
    assert_eq!(rows.len(), 3);
    let (current, diff) = totals(&rows);
    assert_eq!(current.mac_addr, MacAddr::broadcast());
    assert_eq!(diff.mac_addr, MacAddr::broadcast());
    assert_eq!(current.ipackets, 13 + 25 + 30);
    assert_eq!(diff.ipackets, 3 + 5);
    for q in 0..16 {
        let expected: u64 = rows.iter().map(|r| r.1.q_ipackets[q]).sum();
        assert_eq!(diff.q_ipackets[q], expected);
        assert_eq!(diff.q_ibytes[q], (3 + 5) * (q as u64 + 1));
    }
}

#[test]
fn totals_of_no_rows_are_zero() {
    let (current, diff) = totals(&[]);
    assert_eq!(current.ipackets, 0);
    assert_eq!(diff.q_errors, [0; 16]);
    assert_eq!(current.mac_addr, MacAddr::broadcast());
}
