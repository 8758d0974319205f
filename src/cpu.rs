//! CPU utilisation over an interval, from two aggregate tick samples.
use vstd::prelude::*;
use vstd::string::*;
use crate::text::{decimal_value, fields, is_u64_decimal, parse_decimal, split_fields};

verus! {

/// Highest utilisation, in thousandths of a percent (100.000 %).
pub const FULL_USAGE_MILLI: u32 = 100000;

/// Cumulative CPU ticks from the kernel's aggregate line, in its field order.
/// Fields that an older kernel does not report are zero.
#[derive(Clone, Copy, Debug, PartialEq, Eq, Structural)]
pub struct TickSnapshot {
    pub user: u64,
    pub nice: u64,
    pub system: u64,
    pub idle: u64,
    pub iowait: u64,
    pub irq: u64,
    pub softirq: u64,
    pub steal: u64,
    pub guest: u64,
    pub guest_nice: u64,
}

/// Some counter went backwards between the two samples (wraparound or reboot).
pub open spec fn regressed(p: TickSnapshot, c: TickSnapshot) -> bool {
    c.user < p.user || c.nice < p.nice || c.system < p.system || c.idle < p.idle
        || c.iowait < p.iowait || c.irq < p.irq || c.softirq < p.softirq
        || c.steal < p.steal || c.guest < p.guest || c.guest_nice < p.guest_nice
}

/// Ticks spent idle or waiting on I/O between the samples.
pub open spec fn idle_delta(p: TickSnapshot, c: TickSnapshot) -> int {
    (c.idle - p.idle) + (c.iowait - p.iowait)
}

/// Ticks spent in every other state between the samples.
pub open spec fn active_delta(p: TickSnapshot, c: TickSnapshot) -> int {
    (c.user - p.user) + (c.nice - p.nice) + (c.system - p.system) + (c.irq - p.irq)
        + (c.softirq - p.softirq) + (c.steal - p.steal) + (c.guest - p.guest)
        + (c.guest_nice - p.guest_nice)
}

/// Utilisation in thousandths of a percent, rounded to nearest (halves up);
/// zero where a counter regressed or no tick elapsed.
pub open spec fn usage_milli(p: TickSnapshot, c: TickSnapshot) -> int {
    let active = active_delta(p, c);
    let total = active + idle_delta(p, c);
    if regressed(p, c) || total == 0 {
        0
    } else {
        (200000 * active + total) / (2 * total)
    }
}

/// What `estimate` reports: nothing to compare against on the first sample.
pub open spec fn estimate_spec(previous: Option<TickSnapshot>, current: TickSnapshot) -> int {
    match previous {
        None => 0,
        Some(p) => usage_milli(p, current),
    }
}

/// The rounded ratio never exceeds the whole.
pub proof fn lemma_usage_bounded(p: TickSnapshot, c: TickSnapshot)
    ensures
        0 <= usage_milli(p, c) <= FULL_USAGE_MILLI,
{
    let active = active_delta(p, c);
    let total = active + idle_delta(p, c);
    if !(regressed(p, c) || total == 0) {
        assert(0 <= active <= total);
        assert(0 <= (200000 * active + total) / (2 * total) <= 100000) by (nonlinear_arith)
            requires
                0 <= active <= total,
                total > 0,
        {
            assert(200000 * active + total < 2 * total * 100001);
        }
    }
}

/// On the first sample there is nothing to compare against.
pub proof fn lemma_first_sample_is_zero(current: TickSnapshot)
    ensures
        estimate_spec(None, current) == 0,
{
}

/// Two equal samples span no ticks, and so no utilisation.
pub proof fn lemma_equal_samples_are_zero(s: TickSnapshot)
    ensures
        estimate_spec(Some(s), s) == 0,
{
}

/// Every estimate lies between none and all of the CPU.
pub proof fn lemma_estimate_bounded(previous: Option<TickSnapshot>, current: TickSnapshot)
    ensures
        0 <= estimate_spec(previous, current) <= FULL_USAGE_MILLI,
{
    if let Some(p) = previous {
        lemma_usage_bounded(p, current);
    }
}

/// The `k`th counter of an aggregate line whose fields are `f`: the field
/// after the label, or zero where the line stops before it.
pub open spec fn counter(s: Seq<char>, f: Seq<(int, int)>, k: int) -> int {
    if k + 1 < f.len() {
        decimal_value(s.subrange(f[k + 1].0, f[k + 1].1))
    } else {
        0
    }
}

pub open spec fn counter_ok(s: Seq<char>, f: Seq<(int, int)>, k: int) -> bool {
    k + 1 >= f.len() || is_u64_decimal(s.subrange(f[k + 1].0, f[k + 1].1))
}

/// The aggregate line: the label `cpu`, then up to ten counters (more are
/// ignored); `None` where the label differs or a counter is not an unsigned
/// decimal of 64 bits.
pub open spec fn parse_cpu_spec(s: Seq<char>) -> Option<TickSnapshot> {
    let f = fields(s, 0);
    if f.len() < 2 || s.subrange(f[0].0, f[0].1) != seq!['c', 'p', 'u'] || exists|k: int|
        0 <= k < 10 && !(#[trigger] counter_ok(s, f, k)) {
        None
    } else {
        Some(
            TickSnapshot {
                user: counter(s, f, 0) as u64,
                nice: counter(s, f, 1) as u64,
                system: counter(s, f, 2) as u64,
                idle: counter(s, f, 3) as u64,
                iowait: counter(s, f, 4) as u64,
                irq: counter(s, f, 5) as u64,
                softirq: counter(s, f, 6) as u64,
                steal: counter(s, f, 7) as u64,
                guest: counter(s, f, 8) as u64,
                guest_nice: counter(s, f, 9) as u64,
            },
        )
    }
}

fn counter_at(line: &str, f: &Vec<(usize, usize)>, k: usize) -> (r: Option<u64>)
    requires
        k < 10,
        f@.len() == fields(line@, 0).len(),
        forall|j: int|
            0 <= j < f@.len() ==> f@[j].0 as int == (#[trigger] fields(line@, 0)[j]).0
                && f@[j].1 as int == fields(line@, 0)[j].1,
        forall|j: int| 0 <= j < f@.len() ==> (#[trigger] f@[j]).0 <= f@[j].1 <= line@.len(),
    ensures
        match r {
            Some(v) => counter_ok(line@, fields(line@, 0), k as int) && v == counter(
                line@,
                fields(line@, 0),
                k as int,
            ),
            None => !counter_ok(line@, fields(line@, 0), k as int),
        },
{
    if k + 1 < f.len() {
        let (a, b) = f[k + 1];
        parse_decimal(line, a, b)
    } else {
        Some(0)
    }
}

/// Reads the kernel's aggregate CPU line (`cpu  user nice system ...`).
pub fn parse_cpu_line(line: &str) -> (r: Option<TickSnapshot>)
    ensures
        r == parse_cpu_spec(line@),
{
    let f = split_fields(line, 0);
    let ghost fs = fields(line@, 0);
    proof {
        crate::text::lemma_fields_within(line@, 0);
        assert forall|j: int| 0 <= j < f@.len() implies (#[trigger] f@[j]).0 <= f@[j].1 <= line@.len() by {
            assert(f@[j].0 as int == fs[j].0);
        }
    }
    if f.len() < 2 {
        return None;
    }
    let (a, b) = f[0];
    assert(a as int == fs[0].0 && b as int == fs[0].1);
    if !(b - a == 3 && line.get_char(a) == 'c' && line.get_char(a + 1) == 'p' && line.get_char(
        a + 2,
    ) == 'u') {
        assert(line@.subrange(a as int, b as int) != seq!['c', 'p', 'u']) by {
            let t = line@.subrange(a as int, b as int);
            let label = seq!['c', 'p', 'u'];
            assert(label.len() == 3 && label[0] == 'c' && label[1] == 'p' && label[2] == 'u');
            if t == label {
                assert(t[0] == line@[a as int]);
                assert(t[1] == line@[a + 1]);
                assert(t[2] == line@[a + 2]);
            }
        }
        return None;
    }
    assert(line@.subrange(a as int, b as int) =~= seq!['c', 'p', 'u']);
    let user = match counter_at(line, &f, 0) { Some(v) => v, None => return None };
    let nice = match counter_at(line, &f, 1) { Some(v) => v, None => return None };
    let system = match counter_at(line, &f, 2) { Some(v) => v, None => return None };
    let idle = match counter_at(line, &f, 3) { Some(v) => v, None => return None };
    let iowait = match counter_at(line, &f, 4) { Some(v) => v, None => return None };
    let irq = match counter_at(line, &f, 5) { Some(v) => v, None => return None };
    let softirq = match counter_at(line, &f, 6) { Some(v) => v, None => return None };
    let steal = match counter_at(line, &f, 7) { Some(v) => v, None => return None };
    let guest = match counter_at(line, &f, 8) { Some(v) => v, None => return None };
    let guest_nice = match counter_at(line, &f, 9) { Some(v) => v, None => return None };
    assert forall|k: int| 0 <= k < 10 implies #[trigger] counter_ok(line@, fs, k) by {
        if k == 0 {} else if k == 1 {} else if k == 2 {} else if k == 3 {} else if k == 4 {}
        else if k == 5 {} else if k == 6 {} else if k == 7 {} else if k == 8 {} else {}
    }
    Some(TickSnapshot { user, nice, system, idle, iowait, irq, softirq, steal, guest, guest_nice })
}

/// CPU utilisation between two samples, in thousandths of a percent.
pub fn estimate(previous: Option<TickSnapshot>, current: &TickSnapshot) -> (r: u32)
    ensures
        r as int == estimate_spec(previous, *current),
        r <= FULL_USAGE_MILLI,
{
    match previous {
        None => 0,
        Some(p) => {
            let c = *current;
            proof {
                lemma_usage_bounded(p, c);
            }
            if c.user < p.user || c.nice < p.nice || c.system < p.system || c.idle < p.idle
                || c.iowait < p.iowait || c.irq < p.irq || c.softirq < p.softirq
                || c.steal < p.steal || c.guest < p.guest || c.guest_nice < p.guest_nice {
                return 0;
            }
            let active: u128 = (c.user - p.user) as u128 + (c.nice - p.nice) as u128
                + (c.system - p.system) as u128 + (c.irq - p.irq) as u128
                + (c.softirq - p.softirq) as u128 + (c.steal - p.steal) as u128
                + (c.guest - p.guest) as u128 + (c.guest_nice - p.guest_nice) as u128;
            let total: u128 = active + (c.idle - p.idle) as u128 + (c.iowait - p.iowait) as u128;
            if total == 0 {
                return 0;
            }
            assert(200000 * active + total <= 200001 * total) by (nonlinear_arith)
                requires
                    active <= total,
            ;
            let q: u128 = (200000 * active + total) / (2 * total);
            q as u32
        },
    }
}

} // verus!
