use membw::cache_info::CacheInfo;
use membw::kernel::Kernel;
use membw::runner::{
    aggregate, buffer_bytes, initial_buffer, keep_measuring, select_kernel, stride_bytes, stride_elements,
    summarize_run, worker_count, BenchmarkConfig, ConfigError, Operation, RunError, ThreadOutcome, WorkerTally,
};

fn config(duration_nanos: u64, stride: usize, thread_count: usize) -> BenchmarkConfig {
    BenchmarkConfig {
        size: 128 * 1024 * 1024,
        stride,
        duration_nanos,
        warmup_iterations: 5,
        kernel: Kernel::ScalarRead,
        thread_count,
        core_ids: vec![],
        cpu_cache_info: CacheInfo::unknown(),
    }
}

#[test]
fn zero_duration_is_refused() {
    assert_eq!(config(0, 16, 1).validate(), Err(ConfigError::ZeroDuration));
    let outcomes = vec![ThreadOutcome { checksum: 1, iterations: 1, elapsed_nanos: 1 }];
    assert_eq!(summarize_run(&config(0, 16, 1), &outcomes), Err(RunError::Config(ConfigError::ZeroDuration)));
}

#[test]
fn zero_stride_and_zero_threads_are_refused() {
    assert_eq!(config(1, 0, 1).validate(), Err(ConfigError::ZeroStride));
    assert_eq!(config(1, 16, 0).validate(), Err(ConfigError::ZeroThreads));
    assert_eq!(config(0, 0, 0).validate(), Err(ConfigError::ZeroDuration));
    assert_eq!(config(1, 16, 1).validate(), Ok(()));
}

#[test]
fn single_thread_scalar_read_scenario() {
    let cfg = config(1_000_000_000, stride_elements(64), 1);
    let outcomes = vec![ThreadOutcome { checksum: 99, iterations: 40, elapsed_nanos: 1_000_200_000 }];
    let m = summarize_run(&cfg, &outcomes).unwrap();
    assert_eq!(m.cache_line_size, 64);
    assert_eq!(m.elements_per_iteration, (128 * 1024 * 1024) / 64);
    assert_eq!(m.total_iterations, 40);
    assert_eq!(m.bytes_processed, 40 * 128 * 1024 * 1024);
    assert_eq!(m.elapsed_nanos, 1_000_200_000);
    assert_eq!(m.checksum, 99);
}

#[test]
fn summary_errors() {
    assert_eq!(summarize_run(&config(1, 16, 1), &vec![]), Err(RunError::NoOutcomes));
    let mut cfg = config(1, 1, 2);
    cfg.size = usize::MAX;
    let huge = ThreadOutcome { checksum: 0, iterations: u64::MAX, elapsed_nanos: 1 };
    assert_eq!(summarize_run(&cfg, &vec![huge, huge]), Err(RunError::ByteCountOverflow));
}

#[test]
fn aggregate_sums_and_takes_longest_window() {
    let outcomes = vec![
        ThreadOutcome { checksum: u64::MAX, iterations: 10, elapsed_nanos: 5 },
        ThreadOutcome { checksum: 3, iterations: 12, elapsed_nanos: 9 },
        ThreadOutcome { checksum: 4, iterations: 11, elapsed_nanos: 7 },
    ];
    let a = aggregate(&outcomes).unwrap();
    assert_eq!(a.checksum, 6);
    assert_eq!(a.total_iterations, 33);
    assert_eq!(a.elapsed_nanos, 9);
    assert_eq!(aggregate(&vec![]), None);
}

#[test]
fn more_workers_never_lower_the_total() {
    let mut outcomes = Vec::new();
    let mut previous = 0u128;
    for t in 0..8u64 {
        outcomes.push(ThreadOutcome { checksum: t, iterations: 100 - t, elapsed_nanos: 1000 + t });
        let a = aggregate(&outcomes).unwrap();
        assert!(a.total_iterations >= previous);
        previous = a.total_iterations;
    }
    assert_eq!(previous, 800 - 28);
}

#[test]
fn worker_tally_counts_runs() {
    let mut t = WorkerTally::new();
    t.record(u64::MAX);
    t.record(2);
    assert_eq!(t.checksum, 1);
    assert_eq!(t.iterations, 2);
    let o = t.finish(77);
    assert_eq!(o, ThreadOutcome { checksum: 1, iterations: 2, elapsed_nanos: 77 });
    assert!(keep_measuring(0, 1));
    assert!(!keep_measuring(1, 1));
    assert!(!keep_measuring(2, 1));
}

#[test]
fn cores_are_reused_cyclically() {
    let mut cfg = config(1, 16, 5);
    assert_eq!(cfg.core_for_thread(3), None);
    assert!(!cfg.affinity_enabled());
    cfg.core_ids = vec![4, 6];
    assert!(cfg.affinity_enabled());
    assert_eq!(cfg.core_for_thread(0), Some(4));
    assert_eq!(cfg.core_for_thread(1), Some(6));
    assert_eq!(cfg.core_for_thread(4), Some(4));
    assert_eq!(cfg.element_count(), 32 * 1024 * 1024);
}

#[test]
fn setup_decisions() {
    assert_eq!(select_kernel(Operation::Read, false), Some(Kernel::ScalarRead));
    assert_eq!(select_kernel(Operation::Read, true), Some(Kernel::SimdRead));
    assert_eq!(select_kernel(Operation::Write, false), Some(Kernel::ScalarWrite));
    assert_eq!(select_kernel(Operation::Write, true), Some(Kernel::SimdWrite));
    assert_eq!(select_kernel(Operation::ReadWrite, true), None);
    assert_eq!(stride_elements(64), 16);
    assert_eq!(stride_elements(65), 17);
    assert_eq!(stride_elements(1), 1);
    assert_eq!(stride_elements(0), 0);
    assert_eq!(stride_bytes(Some(100), &CacheInfo::unknown()), 100);
    assert_eq!(stride_bytes(None, &CacheInfo::unknown()), 64);
    assert_eq!(buffer_bytes(128), Some(128 * 1024 * 1024));
    assert_eq!(buffer_bytes(usize::MAX), None);
    assert_eq!(worker_count(false, Some(8), 4), 1);
    assert_eq!(worker_count(true, Some(8), 4), 8);
    assert_eq!(worker_count(true, None, 4), 4);
}

#[test]
fn initial_buffers() {
    let w = initial_buffer(Kernel::SimdWrite, 100);
    assert_eq!(w.len(), 100);
    for (i, &x) in w.iter().enumerate() {
        assert_eq!(x, (i as u32) * 7);
    }
    let r = initial_buffer(Kernel::ScalarRead, 4096);
    assert_eq!(r.len(), 4096);
    assert!(r.iter().any(|&x| x != r[0]));
}
