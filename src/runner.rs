//! The decisions of a benchmark run: its configuration and the checks made before
//! any worker starts, what each worker does between its phases, and how the
//! workers' outcomes are combined into one measurement.
use vstd::prelude::*;
use crate::cache_info::CacheInfo;
use crate::kernel::{Kernel, write_value};
use crate::model::{
    bytes_processed, elements_per_iteration, spec_bytes_processed, spec_elements_per_iteration,
    ELEMENT_SIZE,
};
use crate::random::random_word;

verus! {

/// What the benchmark is asked to measure.
#[derive(Clone, Copy, Debug, PartialEq, Eq)]
pub enum Operation {
    /// Read-only benchmark.
    Read,
    /// Write-only benchmark.
    Write,
    /// Read and write benchmark (no kernel implements it).
    ReadWrite,
}

/// The kernel for an operation, scalar or eight-lane; `None` for `ReadWrite`,
/// which no kernel implements.
pub fn select_kernel(operation: Operation, simd: bool) -> (r: Option<Kernel>)
    ensures
        r == match operation {
            Operation::Read => Some(if simd { Kernel::SimdRead } else { Kernel::ScalarRead }),
            Operation::Write => Some(if simd { Kernel::SimdWrite } else { Kernel::ScalarWrite }),
            Operation::ReadWrite => None::<Kernel>,
        },
{
    match operation {
        Operation::Read => Some(if simd { Kernel::SimdRead } else { Kernel::ScalarRead }),
        Operation::Write => Some(if simd { Kernel::SimdWrite } else { Kernel::ScalarWrite }),
        Operation::ReadWrite => None,
    }
}

/// A stride in bytes as a stride in elements, rounded up.
pub fn stride_elements(stride_bytes: usize) -> (r: usize)
    ensures
        r as int == (stride_bytes as int + ELEMENT_SIZE as int - 1) / ELEMENT_SIZE as int,
{
    stride_bytes / ELEMENT_SIZE + if stride_bytes % ELEMENT_SIZE != 0 { 1 } else { 0 }
}

/// The stride in bytes: the one asked for, else the cache-line size.
pub fn stride_bytes(requested: Option<usize>, cache: &CacheInfo) -> (r: usize)
    ensures
        r == match requested {
            Some(b) => b,
            None => cache.spec_line_size(),
        },
{
    match requested {
        Some(b) => b,
        None => cache.line_size(),
    }
}

/// A buffer size in MiB as bytes, or `None` where that does not fit in a `usize`.
pub fn buffer_bytes(size_mib: usize) -> (r: Option<usize>)
    ensures
        match r {
            Some(b) => b as int == size_mib as int * 1024 * 1024,
            None => size_mib as int * 1024 * 1024 > usize::MAX,
        },
{
    size_mib.checked_mul(1024 * 1024)
}

/// Threads to run: one unless parallel, else the number asked for, else one per
/// available core.
pub fn worker_count(parallel: bool, requested: Option<usize>, available: usize) -> (r: usize)
    ensures
        r == if !parallel {
            1
        } else {
            match requested {
                Some(n) => n,
                None => available,
            }
        },
{
    if !parallel {
        1
    } else {
        match requested {
            Some(n) => n,
            None => available,
        }
    }
}

/// A configuration that cannot be run.
#[derive(Clone, Copy, Debug, PartialEq, Eq)]
pub enum ConfigError {
    /// The measurement would last no time at all.
    ZeroDuration,
    /// The stride is zero elements.
    ZeroStride,
    /// No worker thread would run.
    ZeroThreads,
}

/// Everything a run needs, shared read-only by its workers.
#[derive(Clone, Debug)]
pub struct BenchmarkConfig {
    /// Buffer size in bytes, per thread.
    pub size: usize,
    /// Stride in elements.
    pub stride: usize,
    /// Length of the measurement window, in nanoseconds.
    pub duration_nanos: u64,
    pub warmup_iterations: usize,
    pub kernel: Kernel,
    pub thread_count: usize,
    /// Cores to pin the workers to, reused cyclically; empty for no pinning.
    pub core_ids: Vec<usize>,
    pub cpu_cache_info: CacheInfo,
}

impl BenchmarkConfig {
    /// The checks made before any worker starts, in this order: a zero duration,
    /// a zero stride, no threads.
    pub open spec fn spec_validate(&self) -> Result<(), ConfigError> {
        if self.duration_nanos == 0 {
            Err(ConfigError::ZeroDuration)
        } else if self.stride == 0 {
            Err(ConfigError::ZeroStride)
        } else if self.thread_count == 0 {
            Err(ConfigError::ZeroThreads)
        } else {
            Ok(())
        }
    }

    /// See `spec_validate`.
    pub fn validate(&self) -> (r: Result<(), ConfigError>)
        ensures
            r == self.spec_validate(),
    {
        if self.duration_nanos == 0 {
            Err(ConfigError::ZeroDuration)
        } else if self.stride == 0 {
            Err(ConfigError::ZeroStride)
        } else if self.thread_count == 0 {
            Err(ConfigError::ZeroThreads)
        } else {
            Ok(())
        }
    }

    /// Elements in each worker's buffer.
    pub fn element_count(&self) -> (r: usize)
        ensures
            r as int == self.size as int / ELEMENT_SIZE as int,
    {
        self.size / ELEMENT_SIZE
    }

    /// The core worker `thread_id` pins itself to: `core_ids[thread_id % len]`,
    /// none where the list is empty.
    pub fn core_for_thread(&self, thread_id: usize) -> (r: Option<usize>)
        ensures
            self.core_ids@.len() == 0 ==> r.is_none(),
            self.core_ids@.len() > 0 ==> r == Some(
                self.core_ids@[thread_id as int % self.core_ids@.len() as int],
            ),
    {
        if self.core_ids.len() == 0 {
            None
        } else {
            Some(self.core_ids[thread_id % self.core_ids.len()])
        }
    }

    /// Whether the workers are pinned to cores.
    pub fn affinity_enabled(&self) -> (r: bool)
        ensures
            r == (self.core_ids@.len() > 0),
    {
        self.core_ids.len() > 0
    }
}

/// A worker's buffer of `n` elements: for a write kernel each element holds the
/// value the kernel would store there, for a read kernel random values.
pub fn initial_buffer(kernel: Kernel, n: usize) -> (r: Vec<u32>)
    ensures
        r@.len() == n,
        kernel.spec_is_write() ==> forall|i: int| 0 <= i < n ==> #[trigger] r@[i] == write_value(i),
{
    let write = kernel.is_write();
    let mut buffer: Vec<u32> = Vec::with_capacity(n);
    let mut i: usize = 0;
    while i < n
        invariant
            i <= n,
            buffer@.len() == i,
            write == kernel.spec_is_write(),
            write ==> forall|k: int| 0 <= k < i ==> #[trigger] buffer@[k] == write_value(k),
        decreases n - i,
    {
        if write {
            proof {
                vstd::arithmetic::div_mod::lemma_mul_mod_noop_left(i as int, 7, 0x1_0000_0000);
            }
            let low = (i as u64 % 0x1_0000_0000) as u32;
            buffer.push(low.wrapping_mul(7));
        } else {
            buffer.push(random_word());
        }
        i = i + 1;
    }
    buffer
}

/// Whether a worker starts another kernel run: its window is still open.
pub fn keep_measuring(elapsed_nanos: u64, duration_nanos: u64) -> (r: bool)
    ensures
        r == (elapsed_nanos < duration_nanos),
{
    elapsed_nanos < duration_nanos
}

/// What one worker reports when its window closes.
#[derive(Clone, Copy, Debug, PartialEq, Eq)]
pub struct ThreadOutcome {
    /// Kernel checksums, summed with wrapping addition.
    pub checksum: u64,
    pub iterations: u64,
    /// Length of the worker's measurement window, in nanoseconds.
    pub elapsed_nanos: u64,
}

/// A worker's running totals during its measurement window.
#[derive(Clone, Copy, Debug, PartialEq, Eq)]
pub struct WorkerTally {
    pub checksum: u64,
    pub iterations: u64,
}

impl WorkerTally {
    /// Nothing counted yet.
    pub fn new() -> (r: WorkerTally)
        ensures
            r.checksum == 0,
            r.iterations == 0,
    {
        WorkerTally { checksum: 0, iterations: 0 }
    }

    /// Counts one kernel run that returned `checksum`.
    pub fn record(&mut self, checksum: u64)
        requires
            old(self).iterations < u64::MAX,
        ensures
            final(self).checksum as int == (old(self).checksum as int + checksum as int) % 0x1_0000_0000_0000_0000,
            final(self).iterations == old(self).iterations + 1,
    {
        self.checksum = self.checksum.wrapping_add(checksum);
        self.iterations = self.iterations + 1;
    }

    /// The outcome of a window that lasted `elapsed_nanos`.
    pub fn finish(&self, elapsed_nanos: u64) -> (r: ThreadOutcome)
        ensures
            r == (ThreadOutcome {
                checksum: self.checksum,
                iterations: self.iterations,
                elapsed_nanos,
            }),
    {
        ThreadOutcome { checksum: self.checksum, iterations: self.iterations, elapsed_nanos }
    }
}

/// Exact sum of the checksums of the first `n` outcomes.
pub open spec fn checksum_total(outcomes: Seq<ThreadOutcome>, n: nat) -> int
    decreases n,
{
    if n == 0 || n > outcomes.len() {
        0
    } else {
        checksum_total(outcomes, (n - 1) as nat) + outcomes[n - 1].checksum as int
    }
}

/// Exact sum of the iteration counts of the first `n` outcomes.
pub open spec fn iterations_total(outcomes: Seq<ThreadOutcome>, n: nat) -> int
    decreases n,
{
    if n == 0 || n > outcomes.len() {
        0
    } else {
        iterations_total(outcomes, (n - 1) as nat) + outcomes[n - 1].iterations as int
    }
}

/// The longest window among the first `n` outcomes (zero for none).
pub open spec fn elapsed_max(outcomes: Seq<ThreadOutcome>, n: nat) -> u64
    decreases n,
{
    if n == 0 || n > outcomes.len() {
        0
    } else {
        let rest = elapsed_max(outcomes, (n - 1) as nat);
        let e = outcomes[n - 1].elapsed_nanos;
        if e > rest {
            e
        } else {
            rest
        }
    }
}

/// The workers' outcomes combined: checksums summed with wrapping addition,
/// iterations summed, and the longest window, which binds the run.
#[derive(Clone, Copy, Debug, PartialEq, Eq)]
pub struct Aggregate {
    pub checksum: u64,
    pub total_iterations: u128,
    pub elapsed_nanos: u64,
}

/// Combines the outcomes of all workers; `None` where there are none.
pub fn aggregate(outcomes: &Vec<ThreadOutcome>) -> (r: Option<Aggregate>)
    ensures
        outcomes@.len() == 0 <==> r.is_none(),
        r matches Some(a) ==> {
            &&& a.checksum as int == checksum_total(outcomes@, outcomes@.len()) % 0x1_0000_0000_0000_0000
            &&& a.total_iterations as int == iterations_total(outcomes@, outcomes@.len())
            &&& a.elapsed_nanos == elapsed_max(outcomes@, outcomes@.len())
        },
{
    if outcomes.len() == 0 {
        return None;
    }
    let mut checksum: u64 = 0;
    let mut total: u128 = 0;
    let mut elapsed: u64 = 0;
    let mut i: usize = 0;
    while i < outcomes.len()
        invariant
            i <= outcomes@.len(),
            checksum as int == checksum_total(outcomes@, i as nat) % 0x1_0000_0000_0000_0000,
            total as int == iterations_total(outcomes@, i as nat),
            total <= i * 0xffff_ffff_ffff_ffff,
            elapsed == elapsed_max(outcomes@, i as nat),
        decreases outcomes.len() - i,
    {
        let o = outcomes[i];
        proof {
            vstd::arithmetic::div_mod::lemma_add_mod_noop(
                checksum_total(outcomes@, i as nat), o.checksum as int, 0x1_0000_0000_0000_0000);
            vstd::arithmetic::div_mod::lemma_small_mod(o.checksum as nat, 0x1_0000_0000_0000_0000);
        }
        checksum = checksum.wrapping_add(o.checksum);
        total = total + o.iterations as u128;
        if o.elapsed_nanos > elapsed {
            elapsed = o.elapsed_nanos;
        }
        i = i + 1;
    }
    Some(Aggregate { checksum, total_iterations: total, elapsed_nanos: elapsed })
}

/// Adding a worker's outcome never lowers the total iteration count nor the
/// binding window.
pub proof fn lemma_added_worker_never_lowers_totals(outcomes: Seq<ThreadOutcome>, extra: ThreadOutcome)
    ensures
        iterations_total(outcomes.push(extra), outcomes.len() + 1)
            == iterations_total(outcomes, outcomes.len()) + extra.iterations,
        iterations_total(outcomes.push(extra), outcomes.len() + 1) >= iterations_total(outcomes, outcomes.len()),
        elapsed_max(outcomes.push(extra), outcomes.len() + 1) >= elapsed_max(outcomes, outcomes.len()),
{
    lemma_prefix_totals(outcomes, extra, outcomes.len());
}

/// Totals over a prefix do not see what is pushed after it.
proof fn lemma_prefix_totals(outcomes: Seq<ThreadOutcome>, extra: ThreadOutcome, n: nat)
    requires
        n <= outcomes.len(),
    ensures
        iterations_total(outcomes.push(extra), n) == iterations_total(outcomes, n),
        elapsed_max(outcomes.push(extra), n) == elapsed_max(outcomes, n),
    decreases n,
{
    if n > 0 {
        lemma_prefix_totals(outcomes, extra, (n - 1) as nat);
        assert(outcomes.push(extra)[n - 1] == outcomes[n - 1]);
    }
}


/// Why a run yields no measurement.
#[derive(Clone, Copy, Debug, PartialEq, Eq)]
pub enum RunError {
    /// The configuration was refused before any worker started.
    Config(ConfigError),
    /// No worker reported an outcome.
    NoOutcomes,
    /// The byte count does not fit in a `u128`.
    ByteCountOverflow,
}

/// What one run measured, before it is turned into a rate.
#[derive(Clone, Copy, Debug, PartialEq, Eq)]
pub struct Measurement {
    pub cache_line_size: usize,
    pub elements_per_iteration: usize,
    pub total_iterations: u128,
    pub bytes_processed: u128,
    /// The longest worker window, in nanoseconds.
    pub elapsed_nanos: u64,
    pub checksum: u64,
}

/// Combines the workers' outcomes of a run under `config` with the accounting model:
/// the line size is the topology's (64 bytes where unknown), the elements per
/// iteration and the bytes processed follow `spec_elements_per_iteration` and
/// `spec_bytes_processed` over the summed iterations, and the window is the longest.
pub fn summarize_run(config: &BenchmarkConfig, outcomes: &Vec<ThreadOutcome>) -> (r: Result<Measurement, RunError>)
    ensures
        config.spec_validate() matches Err(e) ==> r == Err::<Measurement, RunError>(RunError::Config(e)),
        config.spec_validate() is Ok && outcomes@.len() == 0 ==> r == Err::<Measurement, RunError>(RunError::NoOutcomes),
        config.spec_validate() is Ok && outcomes@.len() > 0 ==> {
            let line = config.cpu_cache_info.spec_line_size();
            let epi = spec_elements_per_iteration(config.size as int, config.stride as int, line as int);
            let total = iterations_total(outcomes@, outcomes@.len());
            let bytes = spec_bytes_processed(epi, line as int, total);
            &&& bytes > u128::MAX ==> r == Err::<Measurement, RunError>(RunError::ByteCountOverflow)
            &&& bytes <= u128::MAX ==> (r matches Ok(m) && m.cache_line_size == line
                && m.elements_per_iteration == epi && m.total_iterations == total
                && m.bytes_processed == bytes
                && m.elapsed_nanos == elapsed_max(outcomes@, outcomes@.len())
                && m.checksum as int == checksum_total(outcomes@, outcomes@.len()) % 0x1_0000_0000_0000_0000)
        },
{
    match config.validate() {
        Err(e) => {
            return Err(RunError::Config(e));
        },
        Ok(()) => {},
    }
    let agg = match aggregate(outcomes) {
        Some(a) => a,
        None => {
            return Err(RunError::NoOutcomes);
        },
    };
    let line = config.cpu_cache_info.line_size();
    let epi = elements_per_iteration(config.size, config.stride, line);
    match bytes_processed(epi, line, agg.total_iterations) {
        Some(bytes) => Ok(Measurement {
            cache_line_size: line,
            elements_per_iteration: epi,
            total_iterations: agg.total_iterations,
            bytes_processed: bytes,
            elapsed_nanos: agg.elapsed_nanos,
            checksum: agg.checksum,
        }),
        None => Err(RunError::ByteCountOverflow),
    }
}

} // verus!
