use github_cli::metrics::{parse_cpu_stat, parse_meminfo};

#[test]
fn meminfo_used_and_total() {
    let text = "MemTotal:       16384000 kB\nMemFree:  1000 kB\nMemAvailable:    8192000 kB\n";
    assert_eq!(parse_meminfo(text), (8000, 16000));
}

#[test]
fn meminfo_missing_or_odd_values() {
    assert_eq!(parse_meminfo(""), (0, 0));
    assert_eq!(parse_meminfo("MemTotal: abc kB\nMemAvailable: 2048 kB\n"), (0, 0));
    assert_eq!(parse_meminfo("MemTotal: 4096 kB\n"), (4, 4));
}

#[test]
fn cpu_stat_idle_and_total() {
    let text = "cpu  10 20 30 40 50 60 70 0 0 0\ncpu0 1 2 3 4\n";
    assert_eq!(parse_cpu_stat(text), Some((40, 280)));
}

#[test]
fn cpu_stat_with_few_counters() {
    assert_eq!(parse_cpu_stat("cpu 1 2 3\n"), Some((0, 1)));
    assert_eq!(parse_cpu_stat(""), Some((0, 1)));
    assert_eq!(parse_cpu_stat("cpu 1 x 2 3 4\n"), Some((4, 10)));
}

#[test]
fn cpu_stat_sum_that_overflows() {
    let text = format!("cpu {} 1 1 1\n", u64::MAX);
    assert_eq!(parse_cpu_stat(&text), None);
}
