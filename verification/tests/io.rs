use hydra::dispatch::DispatchCandidate;
use hydra::io::{
    cgroup_dir, parse_counter, CgroupStats, CpuStats, Empty, IoStats, MemoryStats,
    MemoryStatsError, Process, Step, StepInfo,
};
use hydra::queue::ScheduledItem;

#[test]
fn step_from_candidate() {
    let c = DispatchCandidate {
        drv_path: "/nix/store/x.drv".to_string(),
        ready_time: 10,
        highest_global_priority: 3,
        highest_local_priority: 2,
        lowest_build_id: 7,
        rdeps_count: 4,
    };
    let s = Step::from(c);
    assert_eq!(s.drv_path, "/nix/store/x.drv");
    assert_eq!(
        (s.ready_time, s.highest_global_priority, s.highest_local_priority, s.lowest_build_id, s.rdeps_count),
        (10, 3, 2, 7, 4)
    );
}

#[test]
fn step_info_from_scheduled() {
    let item = ScheduledItem {
        drv_path: "/nix/store/y.drv".to_string(),
        resolved_drv_path: Some("/nix/store/z.drv".to_string()),
        machine_id: 9,
        machine_hostname: "builder-1".to_string(),
    };
    let info = StepInfo::from(item);
    assert_eq!(info.drv_path, "/nix/store/y.drv");
    assert_eq!(info.machine_hostname, "builder-1");
    let _ = Empty {};
}

#[test]
fn counters_parse_trimmed() {
    assert_eq!(parse_counter("123\n"), Some(123));
    assert_eq!(parse_counter("  0 "), Some(0));
    assert_eq!(parse_counter("18446744073709551615"), Some(u64::MAX));
    assert_eq!(parse_counter("18446744073709551616"), None);
    assert_eq!(parse_counter("max\n"), None);
    assert_eq!(parse_counter(""), None);
}

#[test]
fn memory_stats_parse() {
    let m = MemoryStats::parse("100\n", "200\n", "0\n", "5\n").unwrap();
    assert_eq!(m, MemoryStats { current_bytes: 100, peak_bytes: 200, swap_current_bytes: 0, zswap_current_bytes: 5 });
}

#[test]
fn memory_stats_first_failure() {
    assert_eq!(MemoryStats::parse("x", "y", "z", "w").unwrap_err(), MemoryStatsError::Current);
    assert_eq!(MemoryStats::parse("1", "y", "z", "w").unwrap_err(), MemoryStatsError::Peak);
    assert_eq!(MemoryStats::parse("1", "2", "z", "w").unwrap_err(), MemoryStatsError::Swap);
    assert_eq!(MemoryStats::parse("1", "2", "3", "w").unwrap_err(), MemoryStatsError::Zswap);
    assert_eq!(MemoryStatsError::Current.message(), "memory current parsing failed");
    assert_eq!(MemoryStatsError::Peak.message(), "memory peak parsing failed");
    assert_eq!(MemoryStatsError::Swap.message(), "swap parsing failed");
    assert_eq!(MemoryStatsError::Zswap.message(), "zswap parsing failed");
}

#[test]
fn io_stats_sum_devices() {
    let text = "8:0 rbytes=100 wbytes=20 rios=3 wios=1\n259:0 rbytes=5 wbytes=7 dbytes=0\n";
    let s = IoStats::parse(text);
    assert_eq!(s, IoStats { total_read_bytes: 105, total_write_bytes: 27 });
    assert_eq!(IoStats::parse(""), IoStats { total_read_bytes: 0, total_write_bytes: 0 });
    let odd = IoStats::parse("8:0 rbytes=x wbytes=3=4");
    assert_eq!(odd, IoStats { total_read_bytes: 0, total_write_bytes: 3 });
}

#[test]
fn cpu_stats_fields() {
    let text = "usage_usec 1000\nuser_usec 600\nsystem_usec 400\nnr_periods 0\n";
    assert_eq!(CpuStats::parse(text), CpuStats { usage_usec: 1000, user_usec: 600, system_usec: 400 });
    assert_eq!(CpuStats::parse("usage_usec 5\nusage_usec 6"), CpuStats { usage_usec: 6, user_usec: 0, system_usec: 0 });
    assert_eq!(CpuStats::parse("user_usec\n"), CpuStats { usage_usec: 0, user_usec: 0, system_usec: 0 });
}

#[test]
fn cgroup_paths() {
    assert_eq!(cgroup_dir("system.slice/hydra.service"), "/sys/fs/cgroup/system.slice/hydra.service");
}

#[test]
fn process_from_statm() {
    let cgroup = CgroupStats {
        memory: MemoryStats { current_bytes: 1, peak_bytes: 2, swap_current_bytes: 3, zswap_current_bytes: 4 },
        io: IoStats { total_read_bytes: 5, total_write_bytes: 6 },
        cpu: CpuStats { usage_usec: 7, user_usec: 8, system_usec: 9 },
    };
    let p = Process::from_statm(42, 10, 3, 2, 4096, Some(cgroup));
    assert_eq!(p.pid, 42);
    assert_eq!((p.vsize_bytes, p.rss_bytes, p.shared_bytes), (40960, 12288, 8192));
    assert_eq!(p.cgroup, Some(cgroup));
}
