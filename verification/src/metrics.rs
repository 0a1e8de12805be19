//! Counters read from `/proc/stat`, `/proc/meminfo`, `/proc/diskstats` and
//! `/proc/net/dev`, and the change of each counter between two readings.
//!
//! Rates and percentages are these integer changes divided by the elapsed
//! time or by the total; they are left to the caller.

use vstd::prelude::*;
use crate::text::{
    chars_eq_str, chars_of, contains, contains_str, lines, lines_of, parse_uint, parse_unsigned,
    split, split_char, split_whitespace, split_ws, starts_with, starts_with_chars, starts_with_str,
    string_of, trim, trim_chars, views,
};

verus! {

// ---------------------------------------------------------------------------
// CPU
// ---------------------------------------------------------------------------

/// The values of the words that parse as `u64`, in order; the others are
/// skipped.
pub open spec fn parsed_u64s(ws: Seq<Seq<char>>) -> Seq<u64>
    decreases ws.len(),
{
    if ws.len() == 0 {
        seq![]
    } else {
        parsed_u64s(ws.drop_last()) + match parse_uint(ws.last(), u64::MAX as nat) {
            Some(n) => seq![n as u64],
            None => seq![],
        }
    }
}

/// The sum of the values.
pub open spec fn sum_u64s(s: Seq<u64>) -> nat
    decreases s.len(),
{
    if s.len() == 0 {
        0
    } else {
        sum_u64s(s.drop_last()) + s.last() as nat
    }
}

/// The first of the lines from `i` on that starts with `p`.
pub open spec fn first_starting(ls: Seq<Seq<char>>, p: Seq<char>, i: int) -> Option<Seq<char>>
    decreases ls.len() - i,
{
    if i < 0 || i >= ls.len() {
        None
    } else if starts_with(ls[i], p) {
        Some(ls[i])
    } else {
        first_starting(ls, p, i + 1)
    }
}

/// The counters of the aggregate `cpu ` line of `/proc/stat`: the values of
/// its words after the first, skipping those that are not numbers. Empty when
/// there is no such line.
pub open spec fn cpu_counters(stat: Seq<char>) -> Seq<u64> {
    match first_starting(lines(stat), "cpu "@, 0) {
        Some(l) => if split_ws(l).len() == 0 {
            seq![]
        } else {
            parsed_u64s(split_ws(l).drop_first())
        },
        None => seq![],
    }
}

/// The CPU time counters of one reading, in jiffies, and their sum.
pub struct CpuTimes {
    pub times: Vec<u64>,
    pub total: u64,
}

/// A prefix of the words gives a prefix of the values, with no larger sum.
proof fn lemma_parsed_prefix_sum(ws: Seq<Seq<char>>, k: int)
    requires
        0 <= k <= ws.len(),
    ensures
        sum_u64s(parsed_u64s(ws.take(k))) <= sum_u64s(parsed_u64s(ws)),
    decreases ws.len() - k,
{
    if k < ws.len() {
        lemma_parsed_prefix_sum(ws, k + 1);
        let t = ws.take(k + 1);
        assert(t.drop_last() =~= ws.take(k));
        let p = parsed_u64s(ws.take(k));
        match parse_uint(t.last(), u64::MAX as nat) {
            Some(n) => {
                assert((p + seq![n as u64]).drop_last() =~= p);
            },
            None => {
                assert(p + Seq::<u64>::empty() =~= p);
            },
        }
    } else {
        assert(ws.take(k) =~= ws);
    }
}

/// Reads the CPU counters of `/proc/stat`; `None` when their sum does not
/// fit in a `u64`.
pub fn parse_cpu_times(stat: &str) -> (r: Option<CpuTimes>)
    ensures
        match r {
            Some(c) => c.times@ == cpu_counters(stat@) && c.total as nat == sum_u64s(
                cpu_counters(stat@),
            ),
            None => sum_u64s(cpu_counters(stat@)) > u64::MAX,
        },
{
    let text = chars_of(stat);
    let ls = lines_of(&text);
    let ghost lv = views(ls@);
    let mut i: usize = 0;
    while i < ls.len()
        invariant
            lv == views(ls@),
            lv == lines(stat@),
            i <= lv.len(),
            first_starting(lv, "cpu "@, 0) == first_starting(lv, "cpu "@, i as int),
        decreases lv.len() - i,
    {
        assert(lv[i as int] == ls@[i as int]@);
        if starts_with_str(&ls[i], "cpu ") {
            let words = split_whitespace(&ls[i]);
            let ghost wv = views(words@);
            let mut times: Vec<u64> = Vec::new();
            let mut total: u64 = 0;
            if words.len() == 0 {
                return Some(CpuTimes { times, total });
            }
            let ghost rest = wv.drop_first();
            assert(first_starting(lv, "cpu "@, i as int) == Some(lv[i as int]));
            assert(cpu_counters(stat@) == parsed_u64s(rest));
            let mut j: usize = 1;
            assert(rest.take(0) =~= Seq::<Seq<char>>::empty());
            while j < words.len()
                invariant
                    wv == views(words@),
                    wv.len() >= 1,
                    rest == wv.drop_first(),
                    cpu_counters(stat@) == parsed_u64s(rest),
                    1 <= j <= wv.len(),
                    times@ == parsed_u64s(rest.take(j - 1)),
                    total as nat == sum_u64s(times@),
                decreases wv.len() - j,
            {
                let ghost t = rest.take(j as int);
                assert(t.drop_last() =~= rest.take(j - 1));
                assert(t.last() == words@[j as int]@);
                let ghost before = times@;
                match parse_unsigned(&words[j], 18446744073709551615u64) {
                    Some(v) => {
                        times.push(v);
                        assert(times@ =~= before + seq![v]);
                        assert(times@.drop_last() =~= before);
                        match total.checked_add(v) {
                            Some(s) => {
                                total = s;
                            },
                            None => {
                                proof {
                                    assert(parsed_u64s(t) == times@);
                                    assert(sum_u64s(times@) == total + v);
                                    lemma_parsed_prefix_sum(rest, j as int);
                                }
                                return None;
                            },
                        }
                    },
                    None => {
                        assert(times@ =~= before + Seq::<u64>::empty());
                    },
                }
                j = j + 1;
            }
            assert(rest.take(rest.len() as int) =~= rest);
            return Some(CpuTimes { times, total });
        }
        i = i + 1;
    }
    Some(CpuTimes { times: Vec::new(), total: 0 })
}

/// The change of the CPU counters between two readings, in jiffies: of the
/// total, of the `user`, `system` and `idle` counters, and of `iowait` when
/// both readings have it.
pub struct CpuDelta {
    pub total: u64,
    pub user: u64,
    pub system: u64,
    pub idle: u64,
    pub iowait: Option<u64>,
}

/// The change between two CPU readings, each a list of counters and their
/// sum: defined when both have at least four counters and the total grew.
pub open spec fn cpu_delta(prev: (Seq<u64>, u64), cur: (Seq<u64>, u64)) -> Option<
    (u64, u64, u64, u64, Option<u64>),
> {
    if cur.0.len() >= 4 && prev.0.len() >= 4 && cur.1 > prev.1 {
        Some(
            (
                (cur.1 - prev.1) as u64,
                (cur.0[0] - prev.0[0]) as u64,
                (cur.0[2] - prev.0[2]) as u64,
                (cur.0[3] - prev.0[3]) as u64,
                if cur.0.len() > 4 && prev.0.len() > 4 {
                    Some((cur.0[4] - prev.0[4]) as u64)
                } else {
                    None
                },
            ),
        )
    } else {
        None
    }
}

/// Whether the change between two CPU readings can be taken: the total has
/// not decreased, and where it grew, neither has any counter that is used.
pub open spec fn cpu_counters_advance(prev: (Seq<u64>, u64), cur: (Seq<u64>, u64)) -> bool {
    (cur.0.len() >= 4 && prev.0.len() >= 4) ==> {
        &&& prev.1 <= cur.1
        &&& cur.1 > prev.1 ==> {
            &&& prev.0[0] <= cur.0[0]
            &&& prev.0[2] <= cur.0[2]
            &&& prev.0[3] <= cur.0[3]
            &&& (cur.0.len() > 4 && prev.0.len() > 4) ==> prev.0[4] <= cur.0[4]
        }
    }
}

/// Changes of the CPU counters add up: over three readings whose counters
/// advance, the change from the first to the third is the change from the
/// first to the second plus that from the second to the third.
pub proof fn law_cpu_changes_add_up(a: (Seq<u64>, u64), b: (Seq<u64>, u64), c: (Seq<u64>, u64))
    requires
        cpu_delta(a, b) is Some,
        cpu_delta(b, c) is Some,
        cpu_counters_advance(a, b),
        cpu_counters_advance(b, c),
    ensures
        cpu_delta(a, c) matches Some(d) && {
            let ab = cpu_delta(a, b).unwrap();
            let bc = cpu_delta(b, c).unwrap();
            &&& d.0 == ab.0 + bc.0
            &&& d.1 == ab.1 + bc.1
            &&& d.2 == ab.2 + bc.2
            &&& d.3 == ab.3 + bc.3
            &&& (a.0.len() > 4 && b.0.len() > 4 && c.0.len() > 4) ==> d.4 == Some(
                (ab.4.unwrap() + bc.4.unwrap()) as u64,
            )
        },
{
}

// ---------------------------------------------------------------------------
// Memory
// ---------------------------------------------------------------------------

/// The value of `key` in `/proc/meminfo` lines from `i` on, in kB: the second
/// word of the first line that starts with `key`, has two words and whose
/// second word is a `u64`; 0 when there is none.
pub open spec fn meminfo_kib(ls: Seq<Seq<char>>, key: Seq<char>, i: int) -> nat
    decreases ls.len() - i,
{
    if i < 0 || i >= ls.len() {
        0
    } else if starts_with(ls[i], key) && split_ws(ls[i]).len() >= 2 && parse_uint(
        split_ws(ls[i])[1],
        u64::MAX as nat,
    ) is Some {
        parse_uint(split_ws(ls[i])[1], u64::MAX as nat).unwrap()
    } else {
        meminfo_kib(ls, key, i + 1)
    }
}

/// `a - b`, or 0 where `b` is larger.
pub open spec fn sat_sub(a: nat, b: nat) -> nat {
    if a >= b {
        (a - b) as nat
    } else {
        0
    }
}

/// Memory figures of `/proc/meminfo`, in bytes.
pub struct MemoryFigures {
    pub total: u64,
    /// Total less free, buffers and cache, never below 0.
    pub used: u64,
    pub free: u64,
    pub available: u64,
    pub buffers: u64,
    pub cached: u64,
    pub swap_total: u64,
    /// Swap total less swap free, never below 0.
    pub swap_used: u64,
    pub swap_free: u64,
}

/// The value in bytes of a `/proc/meminfo` key: its value in kB times 1024.
pub open spec fn meminfo_bytes(meminfo: Seq<char>, key: Seq<char>) -> nat {
    meminfo_kib(lines(meminfo), key, 0) * 1024
}

/// The keys whose values the memory figures read.
pub open spec fn memory_keys() -> Seq<Seq<char>> {
    seq![
        "MemTotal:"@,
        "MemFree:"@,
        "MemAvailable:"@,
        "Buffers:"@,
        "Cached:"@,
        "SwapTotal:"@,
        "SwapFree:"@,
    ]
}

// ---------------------------------------------------------------------------
// Disks
// ---------------------------------------------------------------------------

/// A `u64`, or 0 when the text is not one.
pub open spec fn u64_or_zero(s: Seq<char>) -> u64 {
    match parse_uint(s, u64::MAX as nat) {
        Some(n) => n as u64,
        None => 0,
    }
}

/// Whether a block device is a physical disk or one of its partitions:
/// its name starts with `sd`, `hd`, `vd` or `nvme`.
pub open spec fn is_disk_device(name: Seq<char>) -> bool {
    starts_with(name, "sd"@) || starts_with(name, "hd"@) || starts_with(name, "vd"@)
        || starts_with(name, "nvme"@)
}

/// The counters of one disk in one reading of `/proc/diskstats`.
pub struct DiskSample {
    pub device: String,
    pub reads_completed: u64,
    pub sectors_read: u64,
    pub writes_completed: u64,
    pub sectors_written: u64,
}

/// The mathematical content of a [`DiskSample`].
pub struct DiskSampleView {
    pub device: Seq<char>,
    pub reads_completed: u64,
    pub sectors_read: u64,
    pub writes_completed: u64,
    pub sectors_written: u64,
}

impl View for DiskSample {
    type V = DiskSampleView;

    open spec fn view(&self) -> DiskSampleView {
        DiskSampleView {
            device: self.device@,
            reads_completed: self.reads_completed,
            sectors_read: self.sectors_read,
            writes_completed: self.writes_completed,
            sectors_written: self.sectors_written,
        }
    }
}

/// The views of a sequence of disk samples.
pub open spec fn disk_samples_view(v: Seq<DiskSample>) -> Seq<DiskSampleView> {
    v.map_values(|d: DiskSample| d@)
}

/// The disk that one line of `/proc/diskstats` describes: a line of at
/// least 14 words whose third word names a disk; the counters are its
/// 4th, 6th, 8th and 10th words, 0 where not a number.
pub open spec fn disk_sample_of_line(l: Seq<char>) -> Option<DiskSampleView> {
    let p = split_ws(l);
    if p.len() >= 14 && is_disk_device(p[2]) {
        Some(
            DiskSampleView {
                device: p[2],
                reads_completed: u64_or_zero(p[3]),
                sectors_read: u64_or_zero(p[5]),
                writes_completed: u64_or_zero(p[7]),
                sectors_written: u64_or_zero(p[9]),
            },
        )
    } else {
        None
    }
}

/// The disks that the lines describe, in order.
pub open spec fn disk_samples(ls: Seq<Seq<char>>) -> Seq<DiskSampleView>
    decreases ls.len(),
{
    if ls.len() == 0 {
        seq![]
    } else {
        disk_samples(ls.drop_last()) + match disk_sample_of_line(ls.last()) {
            Some(d) => seq![d],
            None => seq![],
        }
    }
}

// ---------------------------------------------------------------------------
// Network interfaces
// ---------------------------------------------------------------------------

/// The counters of one interface in one reading of `/proc/net/dev`.
pub struct NetSample {
    pub interface: String,
    pub bytes_recv: u64,
    pub packets_recv: u64,
    pub bytes_sent: u64,
    pub packets_sent: u64,
}

/// The mathematical content of a [`NetSample`].
pub struct NetSampleView {
    pub interface: Seq<char>,
    pub bytes_recv: u64,
    pub packets_recv: u64,
    pub bytes_sent: u64,
    pub packets_sent: u64,
}

impl View for NetSample {
    type V = NetSampleView;

    open spec fn view(&self) -> NetSampleView {
        NetSampleView {
            interface: self.interface@,
            bytes_recv: self.bytes_recv,
            packets_recv: self.packets_recv,
            bytes_sent: self.bytes_sent,
            packets_sent: self.packets_sent,
        }
    }
}

/// The views of a sequence of interface samples.
pub open spec fn net_samples_view(v: Seq<NetSample>) -> Seq<NetSampleView> {
    v.map_values(|n: NetSample| n@)
}

/// Whether an interface is left out: the loopback and the virtual
/// interfaces of containers.
pub open spec fn is_skipped_interface(name: Seq<char>) -> bool {
    name == "lo"@ || contains(name, "docker"@) || contains(name, "veth"@)
}

/// The interface that one line of `/proc/net/dev` describes: a line with
/// exactly one `:`, an interface that is not left out, and at least 16
/// counters after the `:`; bytes and packets received are the 1st and 2nd,
/// sent the 9th and 10th, 0 where not a number.
pub open spec fn net_sample_of_line(l: Seq<char>) -> Option<NetSampleView> {
    let parts = split(l, ':');
    if parts.len() == 2 && !is_skipped_interface(trim(parts[0])) && split_ws(parts[1]).len()
        >= 16 {
        let st = split_ws(parts[1]);
        Some(
            NetSampleView {
                interface: trim(parts[0]),
                bytes_recv: u64_or_zero(st[0]),
                packets_recv: u64_or_zero(st[1]),
                bytes_sent: u64_or_zero(st[8]),
                packets_sent: u64_or_zero(st[9]),
            },
        )
    } else {
        None
    }
}

/// The interfaces that the lines describe, in order.
pub open spec fn net_samples(ls: Seq<Seq<char>>) -> Seq<NetSampleView>
    decreases ls.len(),
{
    if ls.len() == 0 {
        seq![]
    } else {
        net_samples(ls.drop_last()) + match net_sample_of_line(ls.last()) {
            Some(n) => seq![n],
            None => seq![],
        }
    }
}

/// The interfaces of `/proc/net/dev`: its lines after the two header lines.
pub open spec fn netdev_samples(netdev: Seq<char>) -> Seq<NetSampleView> {
    let ls = lines(netdev);
    if ls.len() <= 2 {
        seq![]
    } else {
        net_samples(ls.skip(2))
    }
}

// ---------------------------------------------------------------------------
// Changes between readings
// ---------------------------------------------------------------------------

/// The counters that the first entry named `name` records, from position
/// `i` on.
pub open spec fn previous_counters(prev: Seq<(Seq<char>, u64, u64)>, name: Seq<char>, i: int) -> Option<
    (u64, u64),
>
    decreases prev.len() - i,
{
    if i < 0 || i >= prev.len() {
        None
    } else if prev[i].0 == name {
        Some((prev[i].1, prev[i].2))
    } else {
        previous_counters(prev, name, i + 1)
    }
}

/// The change of a pair of counters since the previous reading, each
/// multiplied by `scale`: nothing when there was no previous reading of the
/// same name.
pub open spec fn counter_change(
    prev: Option<Seq<(Seq<char>, u64, u64)>>,
    name: Seq<char>,
    a: u64,
    b: u64,
    scale: nat,
) -> Option<(u64, u64)> {
    match prev {
        Some(p) => match previous_counters(p, name, 0) {
            Some((pa, pb)) => Some((((a - pa) * scale) as u64, ((b - pb) * scale) as u64)),
            None => None,
        },
        None => None,
    }
}

/// Whether the change of a pair of counters can be taken: no counter has
/// decreased since the previous reading of the same name, and the scaled
/// changes fit in a `u64`.
pub open spec fn counters_advance(
    prev: Option<Seq<(Seq<char>, u64, u64)>>,
    name: Seq<char>,
    a: u64,
    b: u64,
    scale: nat,
) -> bool {
    match prev {
        Some(p) => match previous_counters(p, name, 0) {
            Some((pa, pb)) => pa <= a && pb <= b && (a - pa) * scale <= u64::MAX && (b - pb)
                * scale <= u64::MAX,
            None => true,
        },
        None => true,
    }
}

/// Bytes in one disk sector.
pub const SECTOR_BYTES: u64 = 512;

/// The previous readings that the collector keeps, as it sees them.
pub struct MetricsCollectorView {
    pub prev_cpu: Option<(Seq<u64>, u64)>,
    pub prev_disk: Option<Seq<(Seq<char>, u64, u64)>>,
    pub prev_net: Option<Seq<(Seq<char>, u64, u64)>>,
}

/// Keeps the previous reading of each kind of counter, so that each new
/// reading can be turned into a change since the last one.
pub struct MetricsCollector {
    prev_cpu: Option<(Vec<u64>, u64)>,
    prev_disk: Option<Vec<(String, u64, u64)>>,
    prev_net: Option<Vec<(String, u64, u64)>>,
}

/// The view of a list of named counter pairs.
pub open spec fn named_counters_view(v: Seq<(String, u64, u64)>) -> Seq<(Seq<char>, u64, u64)> {
    v.map_values(|e: (String, u64, u64)| (e.0@, e.1, e.2))
}

impl View for MetricsCollector {
    type V = MetricsCollectorView;

    closed spec fn view(&self) -> MetricsCollectorView {
        MetricsCollectorView {
            prev_cpu: match self.prev_cpu {
                Some(c) => Some((c.0@, c.1)),
                None => None,
            },
            prev_disk: match self.prev_disk {
                Some(d) => Some(named_counters_view(d@)),
                None => None,
            },
            prev_net: match self.prev_net {
                Some(n) => Some(named_counters_view(n@)),
                None => None,
            },
        }
    }
}


/// Reads the disks of `/proc/diskstats`.
pub fn parse_diskstats(diskstats: &str) -> (r: Vec<DiskSample>)
    ensures
        disk_samples_view(r@) == disk_samples(lines(diskstats@)),
{
    let text = chars_of(diskstats);
    let ls = lines_of(&text);
    let ghost lv = views(ls@);
    let mut r: Vec<DiskSample> = Vec::new();
    let mut i: usize = 0;
    assert(lv.take(0) =~= Seq::<Seq<char>>::empty());
    while i < ls.len()
        invariant
            lv == views(ls@),
            i <= lv.len(),
            disk_samples_view(r@) == disk_samples(lv.take(i as int)),
        decreases lv.len() - i,
    {
        let ghost t = lv.take(i + 1);
        assert(t.drop_last() =~= lv.take(i as int));
        assert(t.last() == ls@[i as int]@);
        let ghost before = r@;
        match disk_sample_from_line(&ls[i]) {
            Some(d) => {
                r.push(d);
                assert(disk_samples_view(r@) =~= disk_samples_view(before) + seq![d@]);
            },
            None => {
                assert(disk_samples_view(r@) =~= disk_samples_view(before) + Seq::<
                    DiskSampleView,
                >::empty());
            },
        }
        i = i + 1;
    }
    assert(lv.take(lv.len() as int) =~= lv);
    r
}

/// A `u64`, or 0.
fn parse_u64_or_zero(v: &Vec<char>) -> (r: u64)
    ensures
        r == u64_or_zero(v@),
{
    match parse_unsigned(v, 18446744073709551615u64) {
        Some(n) => n,
        None => 0,
    }
}

/// Whether a device name is that of a disk.
fn is_disk_name(v: &Vec<char>) -> (r: bool)
    ensures
        r == is_disk_device(v@),
{
    starts_with_str(v, "sd") || starts_with_str(v, "hd") || starts_with_str(v, "vd")
        || starts_with_str(v, "nvme")
}

/// The disk of one `/proc/diskstats` line.
fn disk_sample_from_line(l: &Vec<char>) -> (r: Option<DiskSample>)
    ensures
        match r {
            Some(d) => disk_sample_of_line(l@) == Some(d@),
            None => disk_sample_of_line(l@) is None,
        },
{
    let p = split_whitespace(l);
    if p.len() < 14 {
        return None;
    }
    assert(views(p@)[2] == p@[2]@ && views(p@)[3] == p@[3]@ && views(p@)[5] == p@[5]@
        && views(p@)[7] == p@[7]@ && views(p@)[9] == p@[9]@);
    if !is_disk_name(&p[2]) {
        return None;
    }
    Some(
        DiskSample {
            device: string_of(&p[2]),
            reads_completed: parse_u64_or_zero(&p[3]),
            sectors_read: parse_u64_or_zero(&p[5]),
            writes_completed: parse_u64_or_zero(&p[7]),
            sectors_written: parse_u64_or_zero(&p[9]),
        },
    )
}

/// Whether an interface name is left out.
fn is_skipped_name(v: &Vec<char>) -> (r: bool)
    ensures
        r == is_skipped_interface(v@),
{
    chars_eq_str(v, "lo") || contains_str(v, "docker") || contains_str(v, "veth")
}

/// The interface of one `/proc/net/dev` line.
fn net_sample_from_line(l: &Vec<char>) -> (r: Option<NetSample>)
    ensures
        match r {
            Some(n) => net_sample_of_line(l@) == Some(n@),
            None => net_sample_of_line(l@) is None,
        },
{
    let parts = split_char(l, ':');
    if parts.len() != 2 {
        return None;
    }
    assert(views(parts@)[0] == parts@[0]@ && views(parts@)[1] == parts@[1]@);
    let name = trim_chars(&parts[0]);
    if is_skipped_name(&name) {
        return None;
    }
    let st = split_whitespace(&parts[1]);
    if st.len() < 16 {
        return None;
    }
    assert(views(st@)[0] == st@[0]@ && views(st@)[1] == st@[1]@ && views(st@)[8] == st@[8]@
        && views(st@)[9] == st@[9]@);
    Some(
        NetSample {
            interface: string_of(&name),
            bytes_recv: parse_u64_or_zero(&st[0]),
            packets_recv: parse_u64_or_zero(&st[1]),
            bytes_sent: parse_u64_or_zero(&st[8]),
            packets_sent: parse_u64_or_zero(&st[9]),
        },
    )
}

/// Reads the interfaces of `/proc/net/dev`.
pub fn parse_netdev(netdev: &str) -> (r: Vec<NetSample>)
    ensures
        net_samples_view(r@) == netdev_samples(netdev@),
{
    let text = chars_of(netdev);
    let ls = lines_of(&text);
    let ghost lv = views(ls@);
    let mut r: Vec<NetSample> = Vec::new();
    if ls.len() <= 2 {
        assert(net_samples_view(r@) =~= Seq::<NetSampleView>::empty());
        return r;
    }
    let ghost body = lv.skip(2);
    let mut i: usize = 2;
    assert(body.take(0) =~= Seq::<Seq<char>>::empty());
    while i < ls.len()
        invariant
            lv == views(ls@),
            lv.len() > 2,
            body == lv.skip(2),
            2 <= i <= lv.len(),
            net_samples_view(r@) == net_samples(body.take(i - 2)),
        decreases lv.len() - i,
    {
        let ghost t = body.take(i - 1);
        assert(t.drop_last() =~= body.take(i - 2));
        assert(t.last() == ls@[i as int]@);
        let ghost before = r@;
        match net_sample_from_line(&ls[i]) {
            Some(n) => {
                r.push(n);
                assert(net_samples_view(r@) =~= net_samples_view(before) + seq![n@]);
            },
            None => {
                assert(net_samples_view(r@) =~= net_samples_view(before) + Seq::<
                    NetSampleView,
                >::empty());
            },
        }
        i = i + 1;
    }
    assert(body.take(body.len() as int) =~= body);
    r
}

/// The counters that the first entry of `prev` named `name` records.
fn find_previous(prev: &Vec<(String, u64, u64)>, name: &String) -> (r: Option<(u64, u64)>)
    ensures
        r == previous_counters(named_counters_view(prev@), name@, 0),
{
    let ghost pv = named_counters_view(prev@);
    let mut i: usize = 0;
    while i < prev.len()
        invariant
            pv == named_counters_view(prev@),
            i <= prev@.len(),
            previous_counters(pv, name@, 0) == previous_counters(pv, name@, i as int),
        decreases prev@.len() - i,
    {
        assert(pv[i as int] == (prev@[i as int].0@, prev@[i as int].1, prev@[i as int].2));
        if prev[i].0 == *name {
            return Some((prev[i].1, prev[i].2));
        }
        i = i + 1;
    }
    None
}

/// The change of a pair of counters since the previous reading.
fn change_since(
    prev: &Option<Vec<(String, u64, u64)>>,
    name: &String,
    a: u64,
    b: u64,
    scale: u64,
) -> (r: Option<(u64, u64)>)
    requires
        counters_advance(
            match *prev {
                Some(p) => Some(named_counters_view(p@)),
                None => None,
            },
            name@,
            a,
            b,
            scale as nat,
        ),
    ensures
        r == counter_change(
            match *prev {
                Some(p) => Some(named_counters_view(p@)),
                None => None,
            },
            name@,
            a,
            b,
            scale as nat,
        ),
{
    match prev {
        Some(p) => match find_previous(p, name) {
            Some((pa, pb)) => {
                assert((a - pa) * scale <= u64::MAX);
                assert((b - pb) * scale <= u64::MAX);
                Some(((a - pa) * scale, (b - pb) * scale))
            },
            None => None,
        },
        None => None,
    }
}

impl MetricsCollector {
    /// A collector with no previous readings.
    pub fn new() -> (r: MetricsCollector)
        ensures
            r@.prev_cpu is None,
            r@.prev_disk is None,
            r@.prev_net is None,
    {
        MetricsCollector { prev_cpu: None, prev_disk: None, prev_net: None }
    }

    /// The value in kB of a `/proc/meminfo` key, 0 when it is missing.
    fn meminfo_value_kib(&self, meminfo: &str, key: &str) -> (r: u64)
        ensures
            r as nat == meminfo_kib(lines(meminfo@), key@, 0),
    {
        let text = chars_of(meminfo);
        let ls = lines_of(&text);
        let ghost lv = views(ls@);
        let k = chars_of(key);
        let mut i: usize = 0;
        while i < ls.len()
            invariant
                lv == views(ls@),
                lv == lines(meminfo@),
                k@ == key@,
                i <= lv.len(),
                meminfo_kib(lv, key@, 0) == meminfo_kib(lv, key@, i as int),
            decreases lv.len() - i,
        {
            assert(lv[i as int] == ls@[i as int]@);
            if starts_with_chars(&ls[i], &k) {
                let parts = split_whitespace(&ls[i]);
                if parts.len() >= 2 {
                    assert(views(parts@)[1] == parts@[1]@);
                    match parse_unsigned(&parts[1], 18446744073709551615u64) {
                        Some(v) => {
                            return v;
                        },
                        None => {},
                    }
                }
            }
            i = i + 1;
        }
        0
    }

    /// The value in bytes of a `/proc/meminfo` key, 0 when it is missing.
    pub fn extract_memory_value(&self, meminfo: &str, key: &str) -> (r: u64)
        requires
            meminfo_bytes(meminfo@, key@) <= u64::MAX,
        ensures
            r as nat == meminfo_bytes(meminfo@, key@),
    {
        let v = self.meminfo_value_kib(meminfo, key);
        v * 1024
    }

    /// The memory figures of `/proc/meminfo`, in bytes; `None` when one of
    /// the values it reads is too large to be counted in bytes as a `u64`.
    pub fn memory_figures(&self, meminfo: &str) -> (r: Option<MemoryFigures>)
        ensures
            match r {
                Some(m) => {
                    &&& m.total as nat == meminfo_bytes(meminfo@, "MemTotal:"@)
                    &&& m.free as nat == meminfo_bytes(meminfo@, "MemFree:"@)
                    &&& m.available as nat == meminfo_bytes(meminfo@, "MemAvailable:"@)
                    &&& m.buffers as nat == meminfo_bytes(meminfo@, "Buffers:"@)
                    &&& m.cached as nat == meminfo_bytes(meminfo@, "Cached:"@)
                    &&& m.swap_total as nat == meminfo_bytes(meminfo@, "SwapTotal:"@)
                    &&& m.swap_free as nat == meminfo_bytes(meminfo@, "SwapFree:"@)
                    &&& m.used as nat == sat_sub(
                        sat_sub(sat_sub(m.total as nat, m.free as nat), m.buffers as nat),
                        m.cached as nat,
                    )
                    &&& m.swap_used as nat == sat_sub(m.swap_total as nat, m.swap_free as nat)
                },
                None => exists|i: int|
                    0 <= i < memory_keys().len() && #[trigger] meminfo_bytes(
                        meminfo@,
                        memory_keys()[i],
                    ) > u64::MAX,
            },
    {
        proof {
            reveal_strlit("MemTotal:");
            reveal_strlit("MemFree:");
            reveal_strlit("MemAvailable:");
            reveal_strlit("Buffers:");
            reveal_strlit("Cached:");
            reveal_strlit("SwapTotal:");
            reveal_strlit("SwapFree:");
        }
        let limit: u64 = 18014398509481983;
        let total_k = self.meminfo_value_kib(meminfo, "MemTotal:");
        let free_k = self.meminfo_value_kib(meminfo, "MemFree:");
        let available_k = self.meminfo_value_kib(meminfo, "MemAvailable:");
        let buffers_k = self.meminfo_value_kib(meminfo, "Buffers:");
        let cached_k = self.meminfo_value_kib(meminfo, "Cached:");
        let swap_total_k = self.meminfo_value_kib(meminfo, "SwapTotal:");
        let swap_free_k = self.meminfo_value_kib(meminfo, "SwapFree:");
        if total_k > limit {
            assert(meminfo_bytes(meminfo@, memory_keys()[0]) > u64::MAX);
            return None;
        }
        if free_k > limit {
            assert(meminfo_bytes(meminfo@, memory_keys()[1]) > u64::MAX);
            return None;
        }
        if available_k > limit {
            assert(meminfo_bytes(meminfo@, memory_keys()[2]) > u64::MAX);
            return None;
        }
        if buffers_k > limit {
            assert(meminfo_bytes(meminfo@, memory_keys()[3]) > u64::MAX);
            return None;
        }
        if cached_k > limit {
            assert(meminfo_bytes(meminfo@, memory_keys()[4]) > u64::MAX);
            return None;
        }
        if swap_total_k > limit {
            assert(meminfo_bytes(meminfo@, memory_keys()[5]) > u64::MAX);
            return None;
        }
        if swap_free_k > limit {
            assert(meminfo_bytes(meminfo@, memory_keys()[6]) > u64::MAX);
            return None;
        }
        let total = total_k * 1024;
        let free = free_k * 1024;
        let buffers = buffers_k * 1024;
        let cached = cached_k * 1024;
        let swap_total = swap_total_k * 1024;
        let swap_free = swap_free_k * 1024;
        let used = total.saturating_sub(free).saturating_sub(buffers).saturating_sub(cached);
        let swap_used = swap_total.saturating_sub(swap_free);
        Some(
            MemoryFigures {
                total,
                used,
                free,
                available: available_k * 1024,
                buffers,
                cached,
                swap_total,
                swap_used,
                swap_free,
            },
        )
    }

    /// Whether [`MetricsCollector::cpu_step`] can take the change from the
    /// previous CPU reading to `cur`.
    pub fn cpu_counters_advance_from(&self, cur: &CpuTimes) -> (r: bool)
        ensures
            r == match self@.prev_cpu {
                Some(p) => cpu_counters_advance(p, (cur.times@, cur.total)),
                None => true,
            },
    {
        match &self.prev_cpu {
            Some((pt, ptotal)) => {
                if cur.times.len() >= 4 && pt.len() >= 4 {
                    if *ptotal > cur.total {
                        return false;
                    }
                    if cur.total > *ptotal {
                        if pt[0] > cur.times[0] || pt[2] > cur.times[2] || pt[3] > cur.times[3] {
                            return false;
                        }
                        if cur.times.len() > 4 && pt.len() > 4 && pt[4] > cur.times[4] {
                            return false;
                        }
                    }
                }
                true
            },
            None => true,
        }
    }

    /// Records a CPU reading and returns its change since the previous one,
    /// when there was one and the change is defined.
    pub fn cpu_step(&mut self, cur: CpuTimes) -> (r: Option<CpuDelta>)
        requires
            match old(self)@.prev_cpu {
                Some(p) => cpu_counters_advance(p, (cur.times@, cur.total)),
                None => true,
            },
        ensures
            match old(self)@.prev_cpu {
                Some(p) => match cpu_delta(p, (cur.times@, cur.total)) {
                    Some(d) => r == Some(
                        CpuDelta { total: d.0, user: d.1, system: d.2, idle: d.3, iowait: d.4 },
                    ),
                    None => r is None,
                },
                None => r is None,
            },
            final(self)@.prev_cpu == Some((cur.times@, cur.total)),
            final(self)@.prev_disk == old(self)@.prev_disk,
            final(self)@.prev_net == old(self)@.prev_net,
    {
        let mut delta: Option<CpuDelta> = None;
        match &self.prev_cpu {
            Some((pt, ptotal)) => {
                if cur.times.len() >= 4 && pt.len() >= 4 && cur.total > *ptotal {
                    let iowait = if cur.times.len() > 4 && pt.len() > 4 {
                        Some(cur.times[4] - pt[4])
                    } else {
                        None
                    };
                    delta = Some(
                        CpuDelta {
                            total: cur.total - *ptotal,
                            user: cur.times[0] - pt[0],
                            system: cur.times[2] - pt[2],
                            idle: cur.times[3] - pt[3],
                            iowait,
                        },
                    );
                }
            },
            None => {},
        }
        self.prev_cpu = Some((cur.times, cur.total));
        delta
    }

    /// Whether [`MetricsCollector::disk_step`] can take the changes from the
    /// previous disk reading to `samples`.
    pub fn disk_counters_advance_from(&self, samples: &Vec<DiskSample>) -> (r: bool)
        ensures
            r == forall|i: int|
                0 <= i < samples@.len() ==> counters_advance(
                    self@.prev_disk,
                    #[trigger] samples@[i].device@,
                    samples@[i].sectors_read,
                    samples@[i].sectors_written,
                    512,
                ),
    {
        let mut i: usize = 0;
        while i < samples.len()
            invariant
                i <= samples@.len(),
                forall|j: int|
                    0 <= j < i ==> counters_advance(
                        self@.prev_disk,
                        #[trigger] samples@[j].device@,
                        samples@[j].sectors_read,
                        samples@[j].sectors_written,
                        512,
                    ),
            decreases samples@.len() - i,
        {
            let s = &samples[i];
            match &self.prev_disk {
                Some(p) => match find_previous(p, &s.device) {
                    Some((pa, pb)) => {
                        if pa > s.sectors_read || pb > s.sectors_written {
                            return false;
                        }
                        if s.sectors_read - pa > 36028797018963967 || s.sectors_written - pb
                            > 36028797018963967 {
                            return false;
                        }
                    },
                    None => {},
                },
                None => {},
            }
            i = i + 1;
        }
        true
    }

    /// Records a disk reading and returns, for each disk of it, the bytes
    /// read and written since the previous reading of that disk, when there
    /// was one.
    pub fn disk_step(&mut self, samples: &Vec<DiskSample>) -> (r: Vec<Option<(u64, u64)>>)
        requires
            forall|i: int|
                0 <= i < samples@.len() ==> counters_advance(
                    old(self)@.prev_disk,
                    #[trigger] samples@[i].device@,
                    samples@[i].sectors_read,
                    samples@[i].sectors_written,
                    512,
                ),
        ensures
            r@.len() == samples@.len(),
            forall|i: int|
                0 <= i < samples@.len() ==> r@[i] == counter_change(
                    old(self)@.prev_disk,
                    #[trigger] samples@[i].device@,
                    samples@[i].sectors_read,
                    samples@[i].sectors_written,
                    512,
                ),
            final(self)@.prev_disk == Some(
                disk_samples_view(samples@).map_values(
                    |d: DiskSampleView| (d.device, d.sectors_read, d.sectors_written),
                ),
            ),
            final(self)@.prev_cpu == old(self)@.prev_cpu,
            final(self)@.prev_net == old(self)@.prev_net,
    {
        let mut r: Vec<Option<(u64, u64)>> = Vec::new();
        let mut current: Vec<(String, u64, u64)> = Vec::new();
        let ghost target = disk_samples_view(samples@).map_values(
            |d: DiskSampleView| (d.device, d.sectors_read, d.sectors_written),
        );
        let mut i: usize = 0;
        while i < samples.len()
            invariant
                i <= samples@.len(),
                r@.len() == i,
                target == disk_samples_view(samples@).map_values(
                    |d: DiskSampleView| (d.device, d.sectors_read, d.sectors_written),
                ),
                forall|j: int|
                    0 <= j < samples@.len() ==> counters_advance(
                        self@.prev_disk,
                        #[trigger] samples@[j].device@,
                        samples@[j].sectors_read,
                        samples@[j].sectors_written,
                        512,
                    ),
                forall|j: int|
                    0 <= j < i ==> r@[j] == counter_change(
                        self@.prev_disk,
                        #[trigger] samples@[j].device@,
                        samples@[j].sectors_read,
                        samples@[j].sectors_written,
                        512,
                    ),
                named_counters_view(current@) == target.take(i as int),
            decreases samples@.len() - i,
        {
            let s = &samples[i];
            assert(counters_advance(
                self@.prev_disk,
                samples@[i as int].device@,
                samples@[i as int].sectors_read,
                samples@[i as int].sectors_written,
                512,
            ));
            let c = change_since(&self.prev_disk, &s.device, s.sectors_read, s.sectors_written, SECTOR_BYTES);
            r.push(c);
            let name = s.device.clone();
            assert(name@ == samples@[i as int].device@);
            let ghost before = current@;
            current.push((name, s.sectors_read, s.sectors_written));
            assert(named_counters_view(current@) =~= named_counters_view(before).push(
                (samples@[i as int].device@, s.sectors_read, s.sectors_written),
            ));
            assert(target.take(i + 1) =~= target.take(i as int).push(target[i as int]));
            assert(named_counters_view(current@) =~= target.take(i + 1));
            i = i + 1;
        }
        assert(target.take(target.len() as int) =~= target);
        self.prev_disk = Some(current);
        r
    }

    /// Whether [`MetricsCollector::net_step`] can take the changes from the
    /// previous interface reading to `samples`.
    pub fn net_counters_advance_from(&self, samples: &Vec<NetSample>) -> (r: bool)
        ensures
            r == forall|i: int|
                0 <= i < samples@.len() ==> counters_advance(
                    self@.prev_net,
                    #[trigger] samples@[i].interface@,
                    samples@[i].bytes_recv,
                    samples@[i].bytes_sent,
                    1,
                ),
    {
        let mut i: usize = 0;
        while i < samples.len()
            invariant
                i <= samples@.len(),
                forall|j: int|
                    0 <= j < i ==> counters_advance(
                        self@.prev_net,
                        #[trigger] samples@[j].interface@,
                        samples@[j].bytes_recv,
                        samples@[j].bytes_sent,
                        1,
                    ),
            decreases samples@.len() - i,
        {
            let s = &samples[i];
            match &self.prev_net {
                Some(p) => match find_previous(p, &s.interface) {
                    Some((pa, pb)) => {
                        if pa > s.bytes_recv || pb > s.bytes_sent {
                            return false;
                        }
                    },
                    None => {},
                },
                None => {},
            }
            i = i + 1;
        }
        true
    }

    /// Records an interface reading and returns, for each interface of it,
    /// the bytes received and sent since the previous reading of that
    /// interface, when there was one.
    pub fn net_step(&mut self, samples: &Vec<NetSample>) -> (r: Vec<Option<(u64, u64)>>)
        requires
            forall|i: int|
                0 <= i < samples@.len() ==> counters_advance(
                    old(self)@.prev_net,
                    #[trigger] samples@[i].interface@,
                    samples@[i].bytes_recv,
                    samples@[i].bytes_sent,
                    1,
                ),
        ensures
            r@.len() == samples@.len(),
            forall|i: int|
                0 <= i < samples@.len() ==> r@[i] == counter_change(
                    old(self)@.prev_net,
                    #[trigger] samples@[i].interface@,
                    samples@[i].bytes_recv,
                    samples@[i].bytes_sent,
                    1,
                ),
            final(self)@.prev_net == Some(
                net_samples_view(samples@).map_values(
                    |n: NetSampleView| (n.interface, n.bytes_recv, n.bytes_sent),
                ),
            ),
            final(self)@.prev_cpu == old(self)@.prev_cpu,
            final(self)@.prev_disk == old(self)@.prev_disk,
    {
        let mut r: Vec<Option<(u64, u64)>> = Vec::new();
        let mut current: Vec<(String, u64, u64)> = Vec::new();
        let ghost target = net_samples_view(samples@).map_values(
            |n: NetSampleView| (n.interface, n.bytes_recv, n.bytes_sent),
        );
        let mut i: usize = 0;
        while i < samples.len()
            invariant
                i <= samples@.len(),
                r@.len() == i,
                target == net_samples_view(samples@).map_values(
                    |n: NetSampleView| (n.interface, n.bytes_recv, n.bytes_sent),
                ),
                forall|j: int|
                    0 <= j < samples@.len() ==> counters_advance(
                        self@.prev_net,
                        #[trigger] samples@[j].interface@,
                        samples@[j].bytes_recv,
                        samples@[j].bytes_sent,
                        1,
                    ),
                forall|j: int|
                    0 <= j < i ==> r@[j] == counter_change(
                        self@.prev_net,
                        #[trigger] samples@[j].interface@,
                        samples@[j].bytes_recv,
                        samples@[j].bytes_sent,
                        1,
                    ),
                named_counters_view(current@) == target.take(i as int),
            decreases samples@.len() - i,
        {
            let s = &samples[i];
            assert(counters_advance(
                self@.prev_net,
                samples@[i as int].interface@,
                samples@[i as int].bytes_recv,
                samples@[i as int].bytes_sent,
                1,
            ));
            let c = change_since(&self.prev_net, &s.interface, s.bytes_recv, s.bytes_sent, 1);
            r.push(c);
            let name = s.interface.clone();
            assert(name@ == samples@[i as int].interface@);
            let ghost before = current@;
            current.push((name, s.bytes_recv, s.bytes_sent));
            assert(named_counters_view(current@) =~= named_counters_view(before).push(
                (samples@[i as int].interface@, s.bytes_recv, s.bytes_sent),
            ));
            assert(target.take(i + 1) =~= target.take(i as int).push(target[i as int]));
            assert(named_counters_view(current@) =~= target.take(i + 1));
            i = i + 1;
        }
        assert(target.take(target.len() as int) =~= target);
        self.prev_net = Some(current);
        r
    }
}

} // verus!

verus! {

/// A `/proc/diskstats` line of at least 14 words whose device name (third
/// word) starts with `sd`, `hd`, `vd` or `nvme` gives a sample of that
/// device with the counters of its 4th, 6th, 8th and 10th words; any other
/// line gives none.
pub proof fn law_disk_lines_are_read(l: Seq<char>)
    ensures
        ({
            let p = split_ws(l);
            (p.len() >= 14 && (starts_with(p[2], "sd"@) || starts_with(p[2], "hd"@) || starts_with(
                p[2],
                "vd"@,
            ) || starts_with(p[2], "nvme"@))) ==> disk_sample_of_line(l) == Some(
                DiskSampleView {
                    device: p[2],
                    reads_completed: u64_or_zero(p[3]),
                    sectors_read: u64_or_zero(p[5]),
                    writes_completed: u64_or_zero(p[7]),
                    sectors_written: u64_or_zero(p[9]),
                },
            )
        }),
        ({
            let p = split_ws(l);
            disk_sample_of_line(l) is Some ==> p.len() >= 14 && (starts_with(p[2], "sd"@)
                || starts_with(p[2], "hd"@) || starts_with(p[2], "vd"@) || starts_with(
                p[2],
                "nvme"@,
            ))
        }),
{
}

} // verus!

verus! {

/// The change between two CPU readings that both have at least four
/// counters and whose total grew: the total, `user` (first counter),
/// `system` (third) and `idle` (fourth) grow by their differences, and
/// `iowait` (fifth) is there exactly when both readings have it. With
/// fewer counters, or a total that did not grow, there is no change.
pub proof fn law_cpu_change_columns(prev: (Seq<u64>, u64), cur: (Seq<u64>, u64))
    requires
        cpu_counters_advance(prev, cur),
    ensures
        (prev.0.len() >= 4 && cur.0.len() >= 4 && cur.1 > prev.1) ==> (cpu_delta(prev, cur) matches Some(
            d,
        ) && d.0 + prev.1 == cur.1 && d.1 + prev.0[0] == cur.0[0] && d.2 + prev.0[2] == cur.0[2]
            && d.3 + prev.0[3] == cur.0[3] && (d.4 is Some <==> (prev.0.len() > 4 && cur.0.len()
            > 4)) && (d.4 matches Some(w) ==> w + prev.0[4] == cur.0[4])),
        (prev.0.len() < 4 || cur.0.len() < 4 || cur.1 <= prev.1) ==> cpu_delta(prev, cur) is None,
{
}

/// Used memory is the total less free, buffers and cache, and used swap the
/// swap total less free swap, each never below 0.
pub proof fn law_memory_used_is_what_is_left(total: nat, free: nat, buffers: nat, cached: nat)
    ensures
        total >= free + buffers + cached ==> sat_sub(sat_sub(sat_sub(total, free), buffers), cached)
            == total - free - buffers - cached,
        total < free + buffers + cached ==> sat_sub(sat_sub(sat_sub(total, free), buffers), cached)
            == 0,
{
}

/// A `/proc/net/dev` line gives a sample exactly when it has one `:`, the
/// interface before it is neither `lo` nor a `docker` or `veth` interface,
/// and at least 16 counters follow; received bytes and packets are the
/// first two counters, sent bytes and packets the ninth and tenth.
pub proof fn law_interface_lines_are_read(l: Seq<char>)
    ensures
        ({
            let parts = split(l, ':');
            let name = trim(parts[0]);
            (parts.len() == 2 && name != "lo"@ && !contains(name, "docker"@) && !contains(
                name,
                "veth"@,
            ) && split_ws(parts[1]).len() >= 16) ==> net_sample_of_line(l) == Some(
                NetSampleView {
                    interface: name,
                    bytes_recv: u64_or_zero(split_ws(parts[1])[0]),
                    packets_recv: u64_or_zero(split_ws(parts[1])[1]),
                    bytes_sent: u64_or_zero(split_ws(parts[1])[8]),
                    packets_sent: u64_or_zero(split_ws(parts[1])[9]),
                },
            )
        }),
        ({
            let parts = split(l, ':');
            net_sample_of_line(l) is Some ==> parts.len() == 2 && trim(parts[0]) != "lo"@
                && !contains(trim(parts[0]), "docker"@) && !contains(trim(parts[0]), "veth"@)
        }),
{
}

} // verus!
