use system_agent::metrics::{parse_cpu_times, parse_diskstats, parse_netdev, CpuTimes, MetricsCollector};

const MEMINFO: &str = "MemTotal:       16000 kB\nMemFree:         4000 kB\nMemAvailable:    8000 kB\nBuffers:          500 kB\nCached:          2500 kB\nSwapCached:        10 kB\nSwapTotal:       2000 kB\nSwapFree:        2000 kB\n";

#[test]
fn cpu_counters_are_read() {
    let c = parse_cpu_times("cpu  100 5 50 800 20 0 3 0 0 0\ncpu0 1 2 3 4\n").unwrap();
    assert_eq!(c.times, vec![100, 5, 50, 800, 20, 0, 3, 0, 0, 0]);
    assert_eq!(c.total, 978);
}

#[test]
fn cpu_counters_skip_words_that_are_not_numbers() {
    let c = parse_cpu_times("intr 5\ncpu 1 x 2\n").unwrap();
    assert_eq!(c.times, vec![1, 2]);
    assert_eq!(c.total, 3);
    let none = parse_cpu_times("cpu0 1 2\n").unwrap();
    assert!(none.times.is_empty());
    assert_eq!(none.total, 0);
}

#[test]
fn cpu_counters_whose_sum_overflows_are_refused() {
    assert!(parse_cpu_times("cpu 18446744073709551615 1\n").is_none());
}

#[test]
fn cpu_changes_between_readings() {
    let mut m = MetricsCollector::new();
    let first = CpuTimes { times: vec![100, 5, 50, 800, 20], total: 975 };
    assert!(m.cpu_counters_advance_from(&first));
    assert!(m.cpu_step(first).is_none());
    let second = CpuTimes { times: vec![150, 5, 70, 900, 30], total: 1155 };
    assert!(m.cpu_counters_advance_from(&second));
    let d = m.cpu_step(second).unwrap();
    assert_eq!(d.total, 180);
    assert_eq!(d.user, 50);
    assert_eq!(d.system, 20);
    assert_eq!(d.idle, 100);
    assert_eq!(d.iowait, Some(10));
    let backwards = CpuTimes { times: vec![10, 0, 0, 0, 0], total: 10 };
    assert!(!m.cpu_counters_advance_from(&backwards));
    let same = CpuTimes { times: vec![150, 5, 70, 900], total: 1155 };
    assert!(m.cpu_step(same).is_none());
}

#[test]
fn memory_figures_are_in_bytes() {
    let m = MetricsCollector::new();
    let f = m.memory_figures(MEMINFO).unwrap();
    assert_eq!(f.total, 16_384_000);
    assert_eq!(f.free, 4_096_000);
    assert_eq!(f.available, 8_192_000);
    assert_eq!(f.buffers, 512_000);
    assert_eq!(f.cached, 2_560_000);
    assert_eq!(f.used, 9_216_000);
    assert_eq!(f.swap_total, 2_048_000);
    assert_eq!(f.swap_free, 2_048_000);
    assert_eq!(f.swap_used, 0);
    assert_eq!(m.extract_memory_value(MEMINFO, "MemFree:"), 4_096_000);
    assert_eq!(m.extract_memory_value(MEMINFO, "Hugepagesize:"), 0);
}

#[test]
fn used_memory_does_not_go_below_zero() {
    let m = MetricsCollector::new();
    let f = m.memory_figures("MemTotal: 10 kB\nMemFree: 20 kB\nSwapTotal: 1 kB\nSwapFree: 5 kB\n").unwrap();
    assert_eq!(f.used, 0);
    assert_eq!(f.swap_used, 0);
    assert_eq!(f.available, 0);
}

#[test]
fn memory_too_large_for_bytes_is_refused() {
    let m = MetricsCollector::new();
    assert!(m.memory_figures("MemTotal: 18446744073709551615 kB\n").is_none());
}

#[test]
fn disks_and_their_changes() {
    let mut m = MetricsCollector::new();
    let first = parse_diskstats("   8       0 sda 100 0 2048 10 50 0 1024 5 0 10 15 0 0 0 0\n   7       0 loop0 1 0 2 0 0 0 0 0 0 0 0 0 0 0\n 8 1 sda1 1 2 3\n");
    assert_eq!(first.len(), 1);
    assert_eq!(first[0].device, "sda");
    assert_eq!(first[0].reads_completed, 100);
    assert_eq!(first[0].sectors_read, 2048);
    assert_eq!(first[0].writes_completed, 50);
    assert_eq!(first[0].sectors_written, 1024);
    assert!(m.disk_counters_advance_from(&first));
    assert_eq!(m.disk_step(&first), vec![None]);
    let second = parse_diskstats("8 0 sda 120 0 4096 10 60 0 2048 5 0 10 15\n8 16 nvme0n1 1 0 8 0 1 0 8 0 0 0 0\n");
    assert_eq!(second.len(), 2);
    assert!(m.disk_counters_advance_from(&second));
    assert_eq!(m.disk_step(&second), vec![Some((1_048_576, 524_288)), None]);
}

#[test]
fn interfaces_and_their_changes() {
    let mut m = MetricsCollector::new();
    let header = "Inter-|   Receive                                                |  Transmit\n face |bytes    packets errs drop fifo frame compressed multicast|bytes    packets errs drop fifo colls carrier compressed\n";
    let first_text = format!("{}    lo: 100 1 0 0 0 0 0 0 100 1 0 0 0 0 0 0\n  eth0: 5000 40 0 0 0 0 0 0 3000 30 0 0 0 0 0 0\ndocker0: 1 1 0 0 0 0 0 0 1 1 0 0 0 0 0 0\n", header);
    let first = parse_netdev(&first_text);
    assert_eq!(first.len(), 1);
    assert_eq!(first[0].interface, "eth0");
    assert_eq!(first[0].bytes_recv, 5000);
    assert_eq!(first[0].packets_recv, 40);
    assert_eq!(first[0].bytes_sent, 3000);
    assert_eq!(first[0].packets_sent, 30);
    assert_eq!(m.net_step(&first), vec![None]);
    let second_text = format!("{}  eth0: 8000 50 0 0 0 0 0 0 3500 35 0 0 0 0 0 0\n", header);
    let second = parse_netdev(&second_text);
    assert!(m.net_counters_advance_from(&second));
    assert_eq!(m.net_step(&second), vec![Some((3000, 500))]);
    let reset = parse_netdev(&format!("{}  eth0: 1 1 0 0 0 0 0 0 1 1 0 0 0 0 0 0\n", header));
    assert!(!m.net_counters_advance_from(&reset));
}

#[test]
fn netdev_header_alone_has_no_interfaces() {
    assert!(parse_netdev("a\nb\n").is_empty());
    assert!(parse_netdev("eth0: 1 2 3 4 5 6 7 8 9 10 11 12 13 14 15 16\n").is_empty());
}

#[test]
fn cpu_changes_over_three_readings_add_up() {
    let readings = [
        (vec![100u64, 0, 50, 800], 950u64),
        (vec![130, 0, 60, 900], 1090),
        (vec![200, 0, 65, 1000], 1265),
    ];
    let mut stepwise = MetricsCollector::new();
    let mut sum = (0u64, 0u64, 0u64, 0u64);
    for (times, total) in readings.iter() {
        if let Some(d) = stepwise.cpu_step(CpuTimes { times: times.clone(), total: *total }) {
            sum = (sum.0 + d.total, sum.1 + d.user, sum.2 + d.system, sum.3 + d.idle);
        }
    }
    let mut direct = MetricsCollector::new();
    direct.cpu_step(CpuTimes { times: readings[0].0.clone(), total: readings[0].1 });
    let d = direct.cpu_step(CpuTimes { times: readings[2].0.clone(), total: readings[2].1 }).unwrap();
    assert_eq!(sum, (d.total, d.user, d.system, d.idle));
    assert_eq!(sum, (315, 100, 15, 200));
}
