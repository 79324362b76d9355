//! Tier-up bookkeeping of the baseline compiler.
//!
//! Hot functions are reported by their index. Each is compiled once; the compilation
//! itself is the embedder's.
use vstd::prelude::*;

verus! {

/// Counters of the tier-up hook.
#[derive(Debug, Clone, Copy, PartialEq, Eq, Structural)]
pub struct JitTierStats {
    /// Functions reported hot by the interpreter.
    pub tier_ups: u32,
    /// Hot functions successfully compiled.
    pub compiled: u32,
    /// Hot functions that were refused.
    pub refused: u32,
}

impl Default for JitTierStats {
    fn default() -> (r: Self)
        ensures
            r == (JitTierStats { tier_ups: 0, compiled: 0, refused: 0 }),
    {
        JitTierStats { tier_ups: 0, compiled: 0, refused: 0 }
    }
}

/// Whether the value of the flag turns the tier on: anything but nothing, the empty
/// text and `0`.
pub open spec fn flag_on(value: Option<Seq<char>>) -> bool {
    match value {
        None => false,
        Some(v) => v.len() > 0 && v != seq!['0'],
    }
}

/// Whether the value of the flag turns the tier on.
pub fn jit_flag_is_on(value: Option<&str>) -> (r: bool)
    ensures
        r == flag_on(
            match value {
                Some(v) => Some(v@),
                None => None,
            },
        ),
{
    match value {
        None => false,
        Some(v) => {
            let n: usize = v.unicode_len();
            if n == 0 {
                return false;
            }
            let zero: bool = n == 1 && v.get_char(0) == '0';
            proof {
                if zero {
                    assert(v@ =~= seq!['0']);
                } else if v@ == seq!['0'] {
                    assert(v@[0] == '0');
                }
            }
            !zero
        },
    }
}

/// Tier-up state of one program.
pub struct JitTier {
    /// Number of functions of the program.
    pub functions: usize,
    /// Indices of the functions that are compiled.
    pub compiled: Vec<u32>,
    /// The counters.
    pub stats: JitTierStats,
}

impl JitTier {
    /// Whether each compiled function was compiled once, and the counters agree.
    pub open spec fn wf(&self) -> bool {
        &&& self.compiled@.no_duplicates()
        &&& self.stats.compiled == self.compiled@.len()
        &&& self.stats.compiled + self.stats.refused <= self.stats.tier_ups
        &&& forall|i: int| 0 <= i < self.compiled@.len() ==> #[trigger] self.compiled@[i] < self.functions
    }

    /// The state of a program of which nothing is compiled.
    pub fn new(functions: usize) -> (r: JitTier)
        ensures
            r.wf(),
            r.functions == functions,
            r.compiled@ == Seq::<u32>::empty(),
            r.stats == (JitTierStats { tier_ups: 0, compiled: 0, refused: 0 }),
    {
        JitTier {
            functions,
            compiled: Vec::new(),
            stats: JitTierStats { tier_ups: 0, compiled: 0, refused: 0 },
        }
    }

    /// Counts a tier-up; answers whether the function is to be compiled: it is one of
    /// the program's and not compiled yet.
    pub fn on_tier_up(&mut self, function_index: u32) -> (r: bool)
        requires
            old(self).wf(),
            old(self).stats.tier_ups < u32::MAX,
        ensures
            final(self).wf(),
            r == (!old(self).compiled@.contains(function_index) && function_index < old(self).functions),
            final(self).functions == old(self).functions,
            final(self).compiled@ == old(self).compiled@,
            final(self).stats == (JitTierStats {
                tier_ups: (old(self).stats.tier_ups + 1) as u32,
                ..old(self).stats
            }),
    {
        self.stats.tier_ups = self.stats.tier_ups + 1;
        !self.is_compiled(function_index) && (function_index as usize) < self.functions
    }

    /// Whether a function is compiled.
    pub fn is_compiled(&self, function_index: u32) -> (r: bool)
        ensures
            r == self.compiled@.contains(function_index),
    {
        let mut i: usize = 0;
        while i < self.compiled.len()
            invariant
                i <= self.compiled@.len(),
                forall|k: int| 0 <= k < i ==> self.compiled@[k] != function_index,
            decreases self.compiled@.len() - i,
        {
            if self.compiled[i] == function_index {
                return true;
            }
            i = i + 1;
        }
        false
    }

    /// Records how the compilation of a function went that [`Self::on_tier_up`] asked
    /// for.
    pub fn record(&mut self, function_index: u32, compiled: bool)
        requires
            old(self).wf(),
            old(self).stats.compiled + old(self).stats.refused < old(self).stats.tier_ups,
            !old(self).compiled@.contains(function_index),
            function_index < old(self).functions,
        ensures
            final(self).wf(),
            final(self).functions == old(self).functions,
            compiled ==> final(self).compiled@ == old(self).compiled@.push(function_index)
                && final(self).stats == (JitTierStats {
                compiled: (old(self).stats.compiled + 1) as u32,
                ..old(self).stats
            }),
            !compiled ==> final(self).compiled@ == old(self).compiled@ && final(self).stats == (
            JitTierStats { refused: (old(self).stats.refused + 1) as u32, ..old(self).stats }),
    {
        if compiled {
            self.compiled.push(function_index);
            self.stats.compiled = self.stats.compiled + 1;
        } else {
            self.stats.refused = self.stats.refused + 1;
        }
    }
}

} // verus!
