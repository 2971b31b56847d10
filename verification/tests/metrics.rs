use circuit_keys::metrics::{elapsed_ms, end, flush, get, hint, hum, inc, peek, poke, reset};
use circuit_keys::metrics::{start, th, Collector, FlushReport, Scaled, Shown, Unit, VarLine};

#[test]
fn new_collector_is_empty() {
    let collector = Collector::new();
    for id in 0..8 {
        assert_eq!(get(&collector, id), 0);
    }
    assert_eq!(collector.timer("g0"), None);
}

#[test]
fn inc_counts_in_the_slot_and_in_its_total() {
    let mut collector = Collector::new();
    inc(&mut collector, 0);
    inc(&mut collector, 2);
    inc(&mut collector, 2);
    inc(&mut collector, 3);
    let counts: Vec<u64> = (0..8).map(|id| get(&collector, id)).collect();
    assert_eq!(counts, vec![1, 0, 2, 1, 1, 0, 2, 1]);
}

#[test]
fn reset_sets_one_counter_to_zero() {
    let mut collector = Collector::new();
    inc(&mut collector, 1);
    inc(&mut collector, 1);
    reset(&mut collector, 1);
    assert_eq!(get(&collector, 1), 0);
    assert_eq!(get(&collector, 5), 2);
    reset(&mut collector, 5);
    assert_eq!(get(&collector, 5), 0);
}

#[test]
fn flush_reports_and_resets_the_first_three_counters() {
    let mut collector = Collector::new();
    for _ in 0..3 {
        inc(&mut collector, 0);
    }
    inc(&mut collector, 1);
    inc(&mut collector, 2);
    inc(&mut collector, 3);
    let report = flush(&mut collector);
    assert_eq!(
        report,
        FlushReport {
            additions: 3,
            additions_total: 3,
            multiplications: 1,
            multiplications_total: 1
        }
    );
    let counts: Vec<u64> = (0..8).map(|id| get(&collector, id)).collect();
    assert_eq!(counts, vec![0, 0, 0, 1, 3, 1, 1, 1]);
    inc(&mut collector, 0);
    let again = flush(&mut collector);
    assert_eq!(again.additions, 1);
    assert_eq!(again.additions_total, 4);
}

#[test]
fn hum_picks_the_unit() {
    assert_eq!(hum(0), Scaled { count: 0, divisor: 1, unit: Unit::One });
    assert_eq!(hum(999), Scaled { count: 999, divisor: 1, unit: Unit::One });
    assert_eq!(hum(1_000), Scaled { count: 1_000, divisor: 1_000, unit: Unit::Kilo });
    assert_eq!(hum(999_999), Scaled { count: 999_999, divisor: 1_000, unit: Unit::Kilo });
    assert_eq!(hum(1_000_000), Scaled { count: 1_000_000, divisor: 1_000_000, unit: Unit::Mega });
    assert_eq!(hum(999_999_999).unit, Unit::Mega);
    assert_eq!(hum(1_000_000_000).unit, Unit::Giga);
    assert_eq!(hum(u64::MAX).divisor, 1_000_000_000);
    assert_eq!(Unit::One.letter(), "");
    assert_eq!(Unit::Kilo.letter(), "k");
    assert_eq!(Unit::Mega.letter(), "m");
    assert_eq!(Unit::Giga.letter(), "g");
}

#[test]
fn th_shows_seconds_from_one_second_on() {
    assert_eq!(th(0), Shown::Millis(0));
    assert_eq!(th(999), Shown::Millis(999));
    assert_eq!(th(1_000), Shown::Seconds(1_000));
    assert_eq!(th(61_500), Shown::Seconds(61_500));
}

#[test]
fn elapsed_is_never_negative() {
    assert_eq!(elapsed_ms(10, 4), 6);
    assert_eq!(elapsed_ms(4, 4), 0);
    assert_eq!(elapsed_ms(4, 10), 0);
}

#[test]
fn start_sets_the_timer_and_flushes() {
    let mut collector = Collector::new();
    inc(&mut collector, 0);
    let report = start(&mut collector, "setup", 100);
    assert_eq!(report.additions, 1);
    assert_eq!(get(&collector, 0), 0);
    assert_eq!(collector.timer("setup"), Some(100));
    start(&mut collector, "prove", 150);
    start(&mut collector, "setup", 200);
    assert_eq!(collector.timer("setup"), Some(200));
    assert_eq!(collector.timer("prove"), Some(150));
    assert_eq!(collector.timer("verify"), None);
}

#[test]
fn end_gives_the_time_since_the_start() {
    let mut collector = Collector::new();
    start(&mut collector, "setup", 100);
    inc(&mut collector, 2);
    let (report, ms) = end(&mut collector, "setup", 1_350).unwrap();
    assert_eq!(ms, 1_250);
    assert_eq!(report.multiplications, 1);
    assert_eq!(get(&collector, 2), 0);
    assert_eq!(get(&collector, 6), 1);
    assert_eq!(collector.timer("setup"), Some(100));
}

#[test]
fn end_of_an_unknown_timer_changes_nothing() {
    let mut collector = Collector::new();
    inc(&mut collector, 0);
    assert_eq!(end(&mut collector, "setup", 5), None);
    assert_eq!(get(&collector, 0), 1);
}

#[test]
fn peek_reports_without_changing() {
    let mut collector = Collector::new();
    collector.set_timer("g0", 1_000);
    hint(&mut collector, "round");
    inc(&mut collector, 2);
    inc(&mut collector, 2);
    let report = peek(&collector, "one", 1_500);
    assert_eq!(report.session_ms, 500);
    assert_eq!(report.line, "round one");
    assert_eq!(report.since_report_ms, 0);
    assert_eq!(report.multiplications, 2);
    collector.set_timer("gtimer", 1_200);
    assert_eq!(peek(&collector, "", 1_500).since_report_ms, 300);
    assert_eq!(get(&collector, 2), 2);
}

#[test]
fn hint_replaces_the_header() {
    let mut collector = Collector::new();
    collector.set_timer("g0", 0);
    hint(&mut collector, "first");
    hint(&mut collector, "second");
    assert_eq!(peek(&collector, "x", 0).line, "second x");
}

#[test]
fn poke_sets_a_probe_at_the_count_of_multiplications() {
    let mut collector = Collector::new();
    inc(&mut collector, 2);
    let mut probe = poke(&collector, 40);
    inc(&mut collector, 2);
    inc(&mut collector, 2);
    let report = probe.peek(&mut collector, "step", 100);
    assert_eq!(report.own_ms, 60);
    assert_eq!(report.multiplications, 2);
    assert_eq!(report.msg, "step");
    assert!(report.vars.is_empty());
}

#[test]
fn probe_keeps_what_was_told_first() {
    let collector = Collector::new();
    let mut probe = poke(&collector, 0);
    probe.set_const("a", "vector", 4).set_dynmc("b", "matrix", 16).set_const("a", "other", 9);
    probe.set_dynmc("b", "again", 1).set_op("multiply");
    let mut collector = Collector::new();
    let report = probe.peek(&mut collector, "", 0);
    assert_eq!(
        report.vars,
        vec![
            VarLine { label: "a: vector".to_string(), len: 4 },
            VarLine { label: "*b: matrix".to_string(), len: 16 },
        ]
    );
}

#[test]
fn probe_report_records_itself_in_the_collector() {
    let mut collector = Collector::new();
    hint(&mut collector, "run");
    let mut probe = poke(&collector, 100);
    probe.set_const("a", "vector", 4);
    for _ in 0..5 {
        inc(&mut collector, 2);
    }
    let first = probe.peek(&mut collector, "first", 400);
    assert_eq!(first.session_ms, 0);
    assert_eq!(first.own_ms, 300);
    assert!(!first.later);
    assert_eq!(first.gap_ms, 0);
    assert_eq!(first.multiplications, 5);
    assert_eq!(first.multiplications_gap, 0);
    assert_eq!(first.header, "run ");
    assert_eq!(first.vars.len(), 1);
    assert_eq!(collector.timer("g0"), Some(400));
    assert_eq!(collector.timer("gtimer"), Some(400));
    assert_eq!(get(&collector, 1), 5);
    inc(&mut collector, 2);
    probe.reset(&collector, 900);
    inc(&mut collector, 2);
    let second = probe.peek(&mut collector, "second", 1_000);
    assert_eq!(second.session_ms, 600);
    assert_eq!(second.own_ms, 100);
    assert!(second.later);
    assert_eq!(second.gap_ms, 500);
    assert_eq!(second.multiplications, 1);
    assert_eq!(second.multiplications_gap, 1);
    assert!(second.vars.is_empty());
    assert_eq!(get(&collector, 1), 7);
    assert_eq!(collector.timer("g0"), Some(400));
    assert_eq!(collector.timer("gtimer"), Some(1_000));
}

#[test]
fn probe_reset_forgets_the_variables() {
    let mut collector = Collector::new();
    inc(&mut collector, 2);
    let mut probe = poke(&collector, 0);
    probe.set_const("a", "vector", 4).set_op("add");
    inc(&mut collector, 2);
    probe.reset(&collector, 50);
    let report = probe.peek(&mut collector, "", 80);
    assert!(report.vars.is_empty());
    assert_eq!(report.own_ms, 30);
    assert_eq!(report.multiplications, 0);
}

#[test]
fn inc_of_the_last_pair_counts_in_slots_3_and_7() {
    let mut collector = Collector::new();
    inc(&mut collector, 3);
    assert_eq!(get(&collector, 3), 1);
    assert_eq!(get(&collector, 7), 1);
}

#[test]
fn probe_knows_its_base_count() {
    let mut collector = Collector::new();
    inc(&mut collector, 2);
    inc(&mut collector, 2);
    let probe = poke(&collector, 9);
    assert_eq!(probe.base_count(), 2);
}
