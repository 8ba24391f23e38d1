//! Cache topology: what the processor reports of its data caches, and the
//! cache-line size that the accounting model uses.
use vstd::prelude::*;

verus! {

/// Line size assumed where the topology reports none.
pub const DEFAULT_LINE_SIZE: usize = 64;

/// One cache as the processor describes it.
#[derive(Clone, Copy, Debug, PartialEq, Eq)]
pub struct CacheLevel {
    /// 1 for L1, 2 for L2, ...
    pub level: u8,
    /// Whether the cache holds data only.
    pub data: bool,
    pub line_size: usize,
    pub sets: usize,
    pub associativity: usize,
}

/// Per level (L1 data, L2, L3): line size in bytes, capacity in KiB, sets and
/// associativity. `None` means unknown.
#[derive(Clone, Copy, Debug, PartialEq, Eq)]
pub struct CacheInfo {
    pub l1d_line_size: Option<usize>,
    pub l1d_size_kb: Option<usize>,
    pub l1d_sets: Option<usize>,
    pub l1d_associativity: Option<usize>,
    pub l2_line_size: Option<usize>,
    pub l2_size_kb: Option<usize>,
    pub l2_sets: Option<usize>,
    pub l2_associativity: Option<usize>,
    pub l3_line_size: Option<usize>,
    pub l3_size_kb: Option<usize>,
    pub l3_sets: Option<usize>,
    pub l3_associativity: Option<usize>,
}

/// Capacity in KiB, `sets * associativity * line_size / 1024`; unknown where the
/// byte count does not fit in a `usize`.
pub open spec fn level_size_kb(l: CacheLevel) -> Option<usize> {
    let bytes = l.sets as int * l.associativity as int * l.line_size as int;
    if bytes <= usize::MAX {
        Some((bytes / 1024) as usize)
    } else {
        None
    }
}

/// The topology with nothing known.
pub open spec fn unknown_info() -> CacheInfo {
    CacheInfo {
        l1d_line_size: None,
        l1d_size_kb: None,
        l1d_sets: None,
        l1d_associativity: None,
        l2_line_size: None,
        l2_size_kb: None,
        l2_sets: None,
        l2_associativity: None,
        l3_line_size: None,
        l3_size_kb: None,
        l3_sets: None,
        l3_associativity: None,
    }
}

/// `info` with the fields of the level that `l` describes taken from `l`: L1 only
/// for a data cache, L2 and L3 whatever they hold; any other cache changes nothing.
pub open spec fn apply_level(info: CacheInfo, l: CacheLevel) -> CacheInfo {
    if l.level == 1 && l.data {
        CacheInfo {
            l1d_line_size: Some(l.line_size),
            l1d_size_kb: level_size_kb(l),
            l1d_sets: Some(l.sets),
            l1d_associativity: Some(l.associativity),
            ..info
        }
    } else if l.level == 2 {
        CacheInfo {
            l2_line_size: Some(l.line_size),
            l2_size_kb: level_size_kb(l),
            l2_sets: Some(l.sets),
            l2_associativity: Some(l.associativity),
            ..info
        }
    } else if l.level == 3 {
        CacheInfo {
            l3_line_size: Some(l.line_size),
            l3_size_kb: level_size_kb(l),
            l3_sets: Some(l.sets),
            l3_associativity: Some(l.associativity),
            ..info
        }
    } else {
        info
    }
}

/// The topology described by `levels`, read in order; a later description of a
/// level replaces an earlier one.
pub open spec fn info_from(levels: Seq<CacheLevel>) -> CacheInfo
    decreases levels.len(),
{
    if levels.len() == 0 {
        unknown_info()
    } else {
        apply_level(info_from(levels.drop_last()), levels.last())
    }
}

/// Relies on `raw_cpuid::CpuId::get_cache_parameters` (leaf 4, or 0x8000_001D on
/// AMD) and on the accessors of `raw_cpuid::CacheParameter`: the caches this
/// processor reports, in the order it reports them. What they are depends on the
/// machine, so nothing is stated of them.
#[verifier::external_body]
fn cache_parameters() -> (r: Vec<CacheLevel>) {
    let mut levels = Vec::new();
    if let Some(params) = raw_cpuid::CpuId::new().get_cache_parameters() {
        for c in params {
            levels.push(CacheLevel {
                level: c.level(),
                data: c.cache_type() == raw_cpuid::CacheType::Data,
                line_size: c.coherency_line_size(),
                sets: c.sets(),
                associativity: c.associativity(),
            });
        }
    }
    levels
}

impl CacheInfo {
    /// The topology with nothing known.
    pub fn unknown() -> (r: CacheInfo)
        ensures
            r == unknown_info(),
    {
        CacheInfo {
            l1d_line_size: None,
            l1d_size_kb: None,
            l1d_sets: None,
            l1d_associativity: None,
            l2_line_size: None,
            l2_size_kb: None,
            l2_sets: None,
            l2_associativity: None,
            l3_line_size: None,
            l3_size_kb: None,
            l3_sets: None,
            l3_associativity: None,
        }
    }

    /// The topology described by `levels`, read in order.
    pub fn from_levels(levels: &Vec<CacheLevel>) -> (r: CacheInfo)
        ensures
            r == info_from(levels@),
    {
        let mut info = CacheInfo::unknown();
        let mut i: usize = 0;
        while i < levels.len()
            invariant
                i <= levels@.len(),
                info == info_from(levels@.take(i as int)),
            decreases levels.len() - i,
        {
            let l = levels[i];
            let size_kb = level_size(&l);
            assert(levels@.take(i + 1 as int).drop_last() == levels@.take(i as int));
            if l.level == 1 && l.data {
                info.l1d_line_size = Some(l.line_size);
                info.l1d_size_kb = size_kb;
                info.l1d_sets = Some(l.sets);
                info.l1d_associativity = Some(l.associativity);
            } else if l.level == 2 {
                info.l2_line_size = Some(l.line_size);
                info.l2_size_kb = size_kb;
                info.l2_sets = Some(l.sets);
                info.l2_associativity = Some(l.associativity);
            } else if l.level == 3 {
                info.l3_line_size = Some(l.line_size);
                info.l3_size_kb = size_kb;
                info.l3_sets = Some(l.sets);
                info.l3_associativity = Some(l.associativity);
            }
            i = i + 1;
        }
        assert(levels@.take(levels@.len() as int) == levels@);
        info
    }

    /// Line size for the accounting model: the L1 data line size where it is known
    /// and positive, else `DEFAULT_LINE_SIZE`.
    pub open spec fn spec_line_size(self) -> usize {
        match self.l1d_line_size {
            Some(n) => if n > 0 { n } else { DEFAULT_LINE_SIZE },
            None => DEFAULT_LINE_SIZE,
        }
    }

    /// See `spec_line_size`.
    pub fn line_size(&self) -> (r: usize)
        ensures
            r == self.spec_line_size(),
            r > 0,
    {
        match self.l1d_line_size {
            Some(n) => if n > 0 { n } else { DEFAULT_LINE_SIZE },
            None => DEFAULT_LINE_SIZE,
        }
    }
}

/// See `level_size_kb`.
fn level_size(l: &CacheLevel) -> (r: Option<usize>)
    ensures
        r == level_size_kb(*l),
{
    match l.sets.checked_mul(l.associativity) {
        Some(a) => match a.checked_mul(l.line_size) {
            Some(b) => Some(b / 1024),
            None => None,
        },
        None => if l.line_size == 0 {
            assert(l.sets as int * l.associativity as int * l.line_size as int == 0) by (nonlinear_arith)
                requires
                    l.line_size == 0,
            ;
            Some(0)
        } else {
            proof {
                assert(l.sets as int * l.associativity as int * l.line_size as int
                    >= l.sets as int * l.associativity as int) by (nonlinear_arith)
                    requires
                        l.line_size >= 1,
                        l.sets as int * l.associativity as int >= 0,
                ;
            }
            None
        },
    }
}

/// The topology of the processor this runs on, as `raw_cpuid` reads it.
pub fn get_cpu_info() -> (r: CacheInfo)
    ensures
        exists|levels: Seq<CacheLevel>| r == #[trigger] info_from(levels),
{
    let levels = cache_parameters();
    CacheInfo::from_levels(&levels)
}

} // verus!
