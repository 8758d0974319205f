use std::collections::HashMap;
use spam::cpu::{estimate, parse_cpu_line, TickSnapshot, FULL_USAGE_MILLI};
use spam::monitor::{App, ProcessMonitor};
use spam::stat::{parse_stat_line, ProcessRecord};
use spam::system::{MemoryStats, SystemMonitor};
use spam::table::{contains_id, ListingEntry, ProcessTable};

fn ticks(v: [u64; 10]) -> TickSnapshot {
    TickSnapshot {
        user: v[0],
        nice: v[1],
        system: v[2],
        idle: v[3],
        iowait: v[4],
        irq: v[5],
        softirq: v[6],
        steal: v[7],
        guest: v[8],
        guest_nice: v[9],
    }
}

/// A stat line whose twenty-second and twenty-third fields are `vsize` and `rss`.
fn stat_line(pid: u32, command: &str, state: &str, vsize: u64, rss: u64) -> String {
    let mut line = format!("{} ({}) {}", pid, command, state);
    for _ in 4..22 {
        line.push_str(" 0");
    }
    line.push_str(&format!(" {} {} 0 0", vsize, rss));
    line
}

fn entry(pid: u32, command: &str, vsize: u64, rss: u64) -> ListingEntry {
    ListingEntry {
        pid,
        stat_line: stat_line(pid, command, "S", vsize, rss),
        page_size: 4096,
    }
}

fn ids(t: &ProcessTable) -> Vec<u32> {
    let mut v: Vec<u32> = t.records().keys().copied().collect();
    v.sort();
    v
}

#[test]
fn first_sample_reads_zero() {
    assert_eq!(estimate(None, &ticks([5, 1, 2, 3, 4, 5, 6, 7, 8, 9])), 0);
    assert_eq!(estimate(None, &ticks([0; 10])), 0);
}

#[test]
fn equal_samples_read_zero() {
    let s = ticks([100, 0, 50, 850, 0, 0, 0, 0, 0, 0]);
    assert_eq!(estimate(Some(s), &s), 0);
}

#[test]
fn busy_interval_reads_full() {
    let p = ticks([100, 0, 50, 850, 0, 0, 0, 0, 0, 0]);
    let c = ticks([150, 0, 100, 850, 0, 0, 0, 0, 0, 0]);
    assert_eq!(estimate(Some(p), &c), 100000);
    assert_eq!(FULL_USAGE_MILLI, 100000);
}

#[test]
fn partial_interval_rounds_to_thousandths() {
    let p = ticks([0; 10]);
    // one active tick of three: 33.333 %
    assert_eq!(estimate(Some(p), &ticks([1, 0, 0, 2, 0, 0, 0, 0, 0, 0])), 33333);
    // two of three: 66.6666... rounds up to 66.667 %
    assert_eq!(estimate(Some(p), &ticks([0, 1, 1, 0, 1, 0, 0, 0, 0, 0])), 66667);
    // iowait counts as idle, steal and guest as active: 3 of 8 = 37.5 %
    assert_eq!(estimate(Some(p), &ticks([0, 0, 0, 4, 1, 0, 0, 1, 1, 1])), 37500);
}

#[test]
fn regressed_counter_reads_zero() {
    let p = ticks([100, 0, 50, 850, 10, 0, 0, 0, 0, 0]);
    let c = ticks([200, 0, 90, 900, 9, 0, 0, 0, 0, 0]);
    assert_eq!(estimate(Some(p), &c), 0);
}

#[test]
fn estimate_stays_in_range_on_extremes() {
    let p = ticks([0; 10]);
    let c = ticks([u64::MAX; 10]);
    let r = estimate(Some(p), &c);
    assert!(r <= 100000);
    assert_eq!(r, 80000);
}

#[test]
fn cpu_line_with_all_fields() {
    let s = parse_cpu_line("cpu  10 20 30 40 50 60 70 80 90 100").unwrap();
    assert_eq!(s, ticks([10, 20, 30, 40, 50, 60, 70, 80, 90, 100]));
}

#[test]
fn cpu_line_missing_fields_are_zero() {
    let s = parse_cpu_line("cpu 1 2 3 4\n").unwrap();
    assert_eq!(s, ticks([1, 2, 3, 4, 0, 0, 0, 0, 0, 0]));
    let s = parse_cpu_line("cpu 1 2 3 4 5 6 7 8 9 10 11 12").unwrap();
    assert_eq!(s, ticks([1, 2, 3, 4, 5, 6, 7, 8, 9, 10]));
}

#[test]
fn cpu_line_rejects_bad_input() {
    assert_eq!(parse_cpu_line("cpu0 1 2 3 4"), None);
    assert_eq!(parse_cpu_line("cpu 1 x 3 4"), None);
    assert_eq!(parse_cpu_line("cpu"), None);
    assert_eq!(parse_cpu_line(""), None);
    assert_eq!(parse_cpu_line("cpu 18446744073709551616"), None);
    assert_eq!(
        parse_cpu_line("cpu 18446744073709551615").unwrap().user,
        u64::MAX
    );
}

#[test]
fn command_with_spaces_and_parentheses() {
    let line = "42 (my proc (v2)) S 0 0 0 0 0 0 0 0 0 0 0 0 0 0 0 0 0 0 0 0 0 4096000 250";
    let r = parse_stat_line(line, 4096).unwrap();
    assert_eq!(r.command, "my proc (v2)");
    assert_eq!(r.state, "S");
}

#[test]
fn stat_line_sizes_in_kilobytes() {
    let r = parse_stat_line(&stat_line(7, "bash", "R", 4096000, 250), 4096).unwrap();
    assert_eq!(
        r,
        ProcessRecord {
            command: "bash".to_string(),
            state: "R".to_string(),
            virtual_size_kb: 4000,
            resident_size_kb: 1000,
        }
    );
}

#[test]
fn stat_line_rejects_malformed() {
    assert_eq!(parse_stat_line("42 (short) S 1 2 3", 4096), None);
    assert_eq!(parse_stat_line("42 short S 0 0 0", 4096), None);
    assert_eq!(parse_stat_line(")( x", 4096), None);
    assert_eq!(parse_stat_line(&stat_line(1, "a", "S", 12, 99), 4096).is_some(), true);
    let bad = stat_line(1, "a", "S", 12, 99).replace(" 99 ", " 9x ");
    assert_eq!(parse_stat_line(&bad, 4096), None);
    let huge = stat_line(1, "a", "S", 0, u64::MAX);
    assert_eq!(parse_stat_line(&huge, 4096), None);
}

#[test]
fn reconcile_inserts_and_evicts() {
    let mut t = ProcessTable::new();
    t.reconcile(&vec![entry(1, "init", 1024, 1), entry(2, "sh", 2048, 2)]);
    assert_eq!(ids(&t), vec![1, 2]);
    t.reconcile(&vec![entry(2, "sh", 2048, 2), entry(3, "ls", 4096, 3)]);
    assert_eq!(ids(&t), vec![2, 3]);
    assert_eq!(t.len(), 2);
    assert!(t.get(1).is_none());
}

#[test]
fn reconcile_overwrites_in_place() {
    let mut t = ProcessTable::new();
    t.reconcile(&vec![entry(5, "old", 1024, 1)]);
    t.reconcile(&vec![entry(5, "new", 8192, 4)]);
    let r = t.get(5).unwrap();
    assert_eq!(r.command, "new");
    assert_eq!(r.virtual_size_kb, 8);
    assert_eq!(r.resident_size_kb, 16);
    assert_eq!(t.len(), 1);
}

#[test]
fn reconcile_twice_is_stable() {
    let l = vec![entry(1, "a", 1024, 1), entry(9, "b", 2048, 2)];
    let mut t = ProcessTable::new();
    t.reconcile(&l);
    let once: HashMap<u32, ProcessRecord> = t.records().clone();
    t.reconcile(&l);
    assert_eq!(t.records(), &once);
    assert_eq!(t.len(), 2);
}

#[test]
fn malformed_entry_does_not_block_others() {
    let mut t = ProcessTable::new();
    t.reconcile(&vec![entry(1, "a", 1024, 1), entry(2, "b", 1024, 1)]);
    let broken = ListingEntry { pid: 2, stat_line: "2 (b) S 1 2".to_string(), page_size: 4096 };
    t.reconcile(&vec![entry(1, "a2", 2048, 2), broken, entry(3, "c", 1024, 1)]);
    assert_eq!(ids(&t), vec![1, 2, 3]);
    assert_eq!(t.get(1).unwrap().command, "a2");
    assert_eq!(t.get(3).unwrap().command, "c");
    // a listed process whose line is malformed keeps its earlier record
    assert_eq!(t.get(2).unwrap().command, "b");
}

#[test]
fn malformed_entry_adds_nothing_new() {
    let mut t = ProcessTable::new();
    let broken = ListingEntry { pid: 8, stat_line: "8 (x".to_string(), page_size: 4096 };
    t.reconcile(&vec![broken, entry(1, "a", 1024, 1)]);
    assert_eq!(ids(&t), vec![1]);
    t.reconcile(&vec![entry(1, "a", 1024, 1)]);
    assert_eq!(ids(&t), vec![1]);
}

#[test]
fn later_duplicate_entry_wins() {
    let mut t = ProcessTable::new();
    t.reconcile(&vec![entry(4, "first", 1024, 1), entry(4, "second", 1024, 1)]);
    assert_eq!(t.len(), 1);
    assert_eq!(t.get(4).unwrap().command, "second");
}

#[test]
fn empty_listing_empties_table() {
    let mut t = ProcessTable::new();
    t.reconcile(&vec![entry(1, "a", 1024, 1)]);
    t.reconcile(&vec![]);
    assert_eq!(t.len(), 0);
}

#[test]
fn contains_id_finds_members() {
    assert!(contains_id(&vec![3, 4, 5], 4));
    assert!(!contains_id(&vec![3, 4, 5], 6));
    assert!(!contains_id(&vec![], 0));
}

#[test]
fn process_monitor_counts() {
    let mut m = ProcessMonitor::new();
    m.fetch(&vec![entry(1, "a", 1024, 1), entry(2, "b", 1024, 1), entry(3, "c", 1024, 1)]);
    assert_eq!(m.n_procs, 3);
    m.fetch(&vec![entry(3, "c", 1024, 1)]);
    assert_eq!(m.n_procs, 1);
}

#[test]
fn memory_from_bytes_in_kilobytes() {
    let m = MemoryStats::from_bytes(8192, 4096, 2048, 1000);
    assert_eq!(m, MemoryStats { mem_total: 8, mem_free: 4, swap_total: 2, swap_free: 0 });
}

#[test]
fn system_monitor_keeps_one_sample() {
    let mut s = SystemMonitor::new();
    s.record_ticks(Some(ticks([100, 0, 50, 850, 0, 0, 0, 0, 0, 0])));
    assert_eq!(s.cpu_usage, 0);
    s.record_ticks(Some(ticks([150, 0, 100, 850, 0, 0, 0, 0, 0, 0])));
    assert_eq!(s.cpu_usage, 100000);
    s.record_ticks(None);
    assert_eq!(s.cpu_usage, 0);
    s.record_ticks(Some(ticks([150, 0, 100, 950, 0, 0, 0, 0, 0, 0])));
    assert_eq!(s.cpu_usage, 0);
    s.record_ticks(Some(ticks([160, 0, 100, 980, 0, 0, 0, 0, 0, 0])));
    assert_eq!(s.cpu_usage, 25000);
}

#[test]
fn system_monitor_reads_sysinfo_in_kilobytes() {
    let mut src = sysinfo::System::new();
    src.refresh_memory();
    let mut s = SystemMonitor::new();
    s.fetch(&src, Some(ticks([100, 0, 50, 850, 0, 0, 0, 0, 0, 0])));
    assert_eq!(s.cpu_usage, 0);
    s.fetch(&src, Some(ticks([101, 0, 50, 852, 0, 0, 0, 0, 0, 0])));
    assert_eq!(s.cpu_usage, 33333);
    s.fetch(&src, None);
    assert_eq!(s.cpu_usage, 0);
    assert_eq!(s.previous, Some(ticks([101, 0, 50, 852, 0, 0, 0, 0, 0, 0])));
    assert_eq!(s.mem_total, src.total_memory() / 1024);
    assert_eq!(s.mem_free, src.free_memory() / 1024);
    assert_eq!(s.swap_total, src.total_swap() / 1024);
    assert_eq!(s.swap_free, src.free_swap() / 1024);
}

#[test]
fn app_tick_and_snapshot() {
    let mut app = App::new();
    let mem = MemoryStats { mem_total: 100, mem_free: 50, swap_total: 10, swap_free: 5 };
    app.tick(Some(ticks([100, 0, 50, 850, 0, 0, 0, 0, 0, 0])), mem, &vec![entry(1, "a", 1024, 1)]);
    app.tick(
        Some(ticks([150, 0, 100, 850, 0, 0, 0, 0, 0, 0])),
        mem,
        &vec![entry(1, "a", 1024, 1), entry(2, "b", 2048, 1)],
    );
    let snap = app.snapshot();
    assert_eq!(snap.cpu_usage, 100000);
    assert_eq!(snap.memory, mem);
    assert_eq!(snap.processes.len(), 2);
    assert_eq!(snap.processes.get(2).unwrap().virtual_size_kb, 2);
}
