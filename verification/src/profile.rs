//! How long the phases of a compilation take, and how often things happen in it.

use vstd::prelude::*;

verus! {

#[derive(Debug, Clone, Copy, PartialEq, Eq, Structural)]
pub struct PhaseDurations {
    pub entry_read_ns: u64,
    pub entry_lex_ns: u64,
    pub entry_parse_ns: u64,
    pub entry_evaluate_ns: u64,
    pub module_resolve_ns: u64,
    pub module_read_ns: u64,
    pub module_lex_ns: u64,
    pub module_parse_ns: u64,
    pub module_evaluate_ns: u64,
    pub checking_ns: u64,
    pub artifact_conversion_ns: u64,
    pub artifact_serialize_hash_ns: u64,
    pub resident_rule_validation_ns: u64,
}

#[derive(Debug, Clone, Copy, PartialEq, Eq, Structural)]
pub struct OperationCounters {
    pub evaluator_steps: u64,
    pub function_calls: u64,
    pub builtin_calls: u64,
    pub environment_snapshots: u64,
    pub environment_snapshot_bindings: u64,
    pub module_requests: u64,
    pub module_cache_hits: u64,
    pub modules_loaded: u64,
    pub file_read_requests: u64,
    pub file_read_cache_hits: u64,
    pub file_read_cache_misses: u64,
    pub memoized_call_hits: u64,
    pub memoized_call_misses: u64,
    pub memoized_call_stores: u64,
    pub resident_rules_validated: u64,
}

#[derive(Debug, Clone, Copy, PartialEq, Eq, Structural)]
pub struct CompileProfile {
    pub phases: PhaseDurations,
    pub counters: OperationCounters,
}

#[derive(Debug, Clone, Copy, PartialEq, Eq, Structural)]
pub enum Phase {
    EntryRead,
    EntryLex,
    EntryParse,
    EntryEvaluate,
    ModuleResolve,
    ModuleRead,
    ModuleLex,
    ModuleParse,
    ModuleEvaluate,
    Checking,
    ArtifactConversion,
    ArtifactSerializeHash,
    ResidentRuleValidation,
}

/// Something that is counted.
#[derive(Debug, Clone, Copy, PartialEq, Eq, Structural)]
pub enum Counter {
    EvaluatorSteps,
    FunctionCalls,
    BuiltinCalls,
    EnvironmentSnapshots,
    EnvironmentSnapshotBindings,
    ModuleRequests,
    ModuleCacheHits,
    ModulesLoaded,
    FileReadRequests,
    FileReadCacheHits,
    FileReadCacheMisses,
    MemoizedCallHits,
    MemoizedCallMisses,
    MemoizedCallStores,
    ResidentRulesValidated,
}

pub open spec fn no_durations() -> PhaseDurations {
    PhaseDurations {
        entry_read_ns: 0,
        entry_lex_ns: 0,
        entry_parse_ns: 0,
        entry_evaluate_ns: 0,
        module_resolve_ns: 0,
        module_read_ns: 0,
        module_lex_ns: 0,
        module_parse_ns: 0,
        module_evaluate_ns: 0,
        checking_ns: 0,
        artifact_conversion_ns: 0,
        artifact_serialize_hash_ns: 0,
        resident_rule_validation_ns: 0,
    }
}

pub open spec fn no_counts() -> OperationCounters {
    OperationCounters {
        evaluator_steps: 0,
        function_calls: 0,
        builtin_calls: 0,
        environment_snapshots: 0,
        environment_snapshot_bindings: 0,
        module_requests: 0,
        module_cache_hits: 0,
        modules_loaded: 0,
        file_read_requests: 0,
        file_read_cache_hits: 0,
        file_read_cache_misses: 0,
        memoized_call_hits: 0,
        memoized_call_misses: 0,
        memoized_call_stores: 0,
        resident_rules_validated: 0,
    }
}

impl Default for CompileProfile {
    fn default() -> (profile: Self)
        ensures
            profile == (CompileProfile { phases: no_durations(), counters: no_counts() }),
    {
        CompileProfile {
            phases: PhaseDurations {
                entry_read_ns: 0,
                entry_lex_ns: 0,
                entry_parse_ns: 0,
                entry_evaluate_ns: 0,
                module_resolve_ns: 0,
                module_read_ns: 0,
                module_lex_ns: 0,
                module_parse_ns: 0,
                module_evaluate_ns: 0,
                checking_ns: 0,
                artifact_conversion_ns: 0,
                artifact_serialize_hash_ns: 0,
                resident_rule_validation_ns: 0,
            },
            counters: OperationCounters {
                evaluator_steps: 0,
                function_calls: 0,
                builtin_calls: 0,
                environment_snapshots: 0,
                environment_snapshot_bindings: 0,
                module_requests: 0,
                module_cache_hits: 0,
                modules_loaded: 0,
                file_read_requests: 0,
                file_read_cache_hits: 0,
                file_read_cache_misses: 0,
                memoized_call_hits: 0,
                memoized_call_misses: 0,
                memoized_call_stores: 0,
                resident_rules_validated: 0,
            },
        }
    }
}

/// A sum that stops at the largest number.
pub open spec fn saturated(left: u64, right: int) -> u64 {
    if left + right > u64::MAX {
        u64::MAX
    } else {
        (left + right) as u64
    }
}

fn saturate(left: u64, right: u128) -> (sum: u64)
    ensures
        sum == saturated(left, right as int),
{
    let room = (u64::MAX - left) as u128;
    if right > room {
        u64::MAX
    } else {
        left + right as u64
    }
}

/// Durations after a phase took more time.
pub open spec fn lengthened(phases: PhaseDurations, phase: Phase, ns: int) -> PhaseDurations {
    match phase {
        Phase::EntryRead => PhaseDurations {
            entry_read_ns: saturated(phases.entry_read_ns, ns),
            ..phases
        },
        Phase::EntryLex => PhaseDurations {
            entry_lex_ns: saturated(phases.entry_lex_ns, ns),
            ..phases
        },
        Phase::EntryParse => PhaseDurations {
            entry_parse_ns: saturated(phases.entry_parse_ns, ns),
            ..phases
        },
        Phase::EntryEvaluate => PhaseDurations {
            entry_evaluate_ns: saturated(phases.entry_evaluate_ns, ns),
            ..phases
        },
        Phase::ModuleResolve => PhaseDurations {
            module_resolve_ns: saturated(phases.module_resolve_ns, ns),
            ..phases
        },
        Phase::ModuleRead => PhaseDurations {
            module_read_ns: saturated(phases.module_read_ns, ns),
            ..phases
        },
        Phase::ModuleLex => PhaseDurations {
            module_lex_ns: saturated(phases.module_lex_ns, ns),
            ..phases
        },
        Phase::ModuleParse => PhaseDurations {
            module_parse_ns: saturated(phases.module_parse_ns, ns),
            ..phases
        },
        Phase::ModuleEvaluate => PhaseDurations {
            module_evaluate_ns: saturated(phases.module_evaluate_ns, ns),
            ..phases
        },
        Phase::Checking => PhaseDurations {
            checking_ns: saturated(phases.checking_ns, ns),
            ..phases
        },
        Phase::ArtifactConversion => PhaseDurations {
            artifact_conversion_ns: saturated(phases.artifact_conversion_ns, ns),
            ..phases
        },
        Phase::ArtifactSerializeHash => PhaseDurations {
            artifact_serialize_hash_ns: saturated(phases.artifact_serialize_hash_ns, ns),
            ..phases
        },
        Phase::ResidentRuleValidation => PhaseDurations {
            resident_rule_validation_ns: saturated(phases.resident_rule_validation_ns, ns),
            ..phases
        },
    }
}

/// Counters after something happened a number of times more.
#[verifier::opaque]
pub open spec fn counted(counters: OperationCounters, counter: Counter, times: int) -> OperationCounters {
    match counter {
        Counter::EvaluatorSteps => OperationCounters {
            evaluator_steps: saturated(counters.evaluator_steps, times),
            ..counters
        },
        Counter::FunctionCalls => OperationCounters {
            function_calls: saturated(counters.function_calls, times),
            ..counters
        },
        Counter::BuiltinCalls => OperationCounters {
            builtin_calls: saturated(counters.builtin_calls, times),
            ..counters
        },
        Counter::EnvironmentSnapshots => OperationCounters {
            environment_snapshots: saturated(counters.environment_snapshots, times),
            ..counters
        },
        Counter::EnvironmentSnapshotBindings => OperationCounters {
            environment_snapshot_bindings: saturated(counters.environment_snapshot_bindings, times),
            ..counters
        },
        Counter::ModuleRequests => OperationCounters {
            module_requests: saturated(counters.module_requests, times),
            ..counters
        },
        Counter::ModuleCacheHits => OperationCounters {
            module_cache_hits: saturated(counters.module_cache_hits, times),
            ..counters
        },
        Counter::ModulesLoaded => OperationCounters {
            modules_loaded: saturated(counters.modules_loaded, times),
            ..counters
        },
        Counter::FileReadRequests => OperationCounters {
            file_read_requests: saturated(counters.file_read_requests, times),
            ..counters
        },
        Counter::FileReadCacheHits => OperationCounters {
            file_read_cache_hits: saturated(counters.file_read_cache_hits, times),
            ..counters
        },
        Counter::FileReadCacheMisses => OperationCounters {
            file_read_cache_misses: saturated(counters.file_read_cache_misses, times),
            ..counters
        },
        Counter::MemoizedCallHits => OperationCounters {
            memoized_call_hits: saturated(counters.memoized_call_hits, times),
            ..counters
        },
        Counter::MemoizedCallMisses => OperationCounters {
            memoized_call_misses: saturated(counters.memoized_call_misses, times),
            ..counters
        },
        Counter::MemoizedCallStores => OperationCounters {
            memoized_call_stores: saturated(counters.memoized_call_stores, times),
            ..counters
        },
        Counter::ResidentRulesValidated => OperationCounters {
            resident_rules_validated: saturated(counters.resident_rules_validated, times),
            ..counters
        },
    }
}

/// Counts that something happened a number of times more.
pub fn add_count(counters: OperationCounters, counter: Counter, times: u64) -> (more:
    OperationCounters)
    ensures
        more == counted(counters, counter, times as int),
{
    reveal(counted);
    let times = times as u128;
    let mut next = counters;
    match counter {
        Counter::EvaluatorSteps => {
            next.evaluator_steps = saturate(counters.evaluator_steps, times);
        },
        Counter::FunctionCalls => {
            next.function_calls = saturate(counters.function_calls, times);
        },
        Counter::BuiltinCalls => {
            next.builtin_calls = saturate(counters.builtin_calls, times);
        },
        Counter::EnvironmentSnapshots => {
            next.environment_snapshots = saturate(counters.environment_snapshots, times);
        },
        Counter::EnvironmentSnapshotBindings => {
            next.environment_snapshot_bindings = saturate(
                counters.environment_snapshot_bindings,
                times,
            );
        },
        Counter::ModuleRequests => {
            next.module_requests = saturate(counters.module_requests, times);
        },
        Counter::ModuleCacheHits => {
            next.module_cache_hits = saturate(counters.module_cache_hits, times);
        },
        Counter::ModulesLoaded => {
            next.modules_loaded = saturate(counters.modules_loaded, times);
        },
        Counter::FileReadRequests => {
            next.file_read_requests = saturate(counters.file_read_requests, times);
        },
        Counter::FileReadCacheHits => {
            next.file_read_cache_hits = saturate(counters.file_read_cache_hits, times);
        },
        Counter::FileReadCacheMisses => {
            next.file_read_cache_misses = saturate(counters.file_read_cache_misses, times);
        },
        Counter::MemoizedCallHits => {
            next.memoized_call_hits = saturate(counters.memoized_call_hits, times);
        },
        Counter::MemoizedCallMisses => {
            next.memoized_call_misses = saturate(counters.memoized_call_misses, times);
        },
        Counter::MemoizedCallStores => {
            next.memoized_call_stores = saturate(counters.memoized_call_stores, times);
        },
        Counter::ResidentRulesValidated => {
            next.resident_rules_validated = saturate(counters.resident_rules_validated, times);
        },
    }
    next
}

/// Adds nanoseconds to a phase.
pub fn add_duration(phases: PhaseDurations, phase: Phase, elapsed_ns: u128) -> (longer:
    PhaseDurations)
    ensures
        longer == lengthened(phases, phase, elapsed_ns as int),
{
    let mut next = phases;
    match phase {
        Phase::EntryRead => {
            next.entry_read_ns = saturate(phases.entry_read_ns, elapsed_ns);
        },
        Phase::EntryLex => {
            next.entry_lex_ns = saturate(phases.entry_lex_ns, elapsed_ns);
        },
        Phase::EntryParse => {
            next.entry_parse_ns = saturate(phases.entry_parse_ns, elapsed_ns);
        },
        Phase::EntryEvaluate => {
            next.entry_evaluate_ns = saturate(phases.entry_evaluate_ns, elapsed_ns);
        },
        Phase::ModuleResolve => {
            next.module_resolve_ns = saturate(phases.module_resolve_ns, elapsed_ns);
        },
        Phase::ModuleRead => {
            next.module_read_ns = saturate(phases.module_read_ns, elapsed_ns);
        },
        Phase::ModuleLex => {
            next.module_lex_ns = saturate(phases.module_lex_ns, elapsed_ns);
        },
        Phase::ModuleParse => {
            next.module_parse_ns = saturate(phases.module_parse_ns, elapsed_ns);
        },
        Phase::ModuleEvaluate => {
            next.module_evaluate_ns = saturate(phases.module_evaluate_ns, elapsed_ns);
        },
        Phase::Checking => {
            next.checking_ns = saturate(phases.checking_ns, elapsed_ns);
        },
        Phase::ArtifactConversion => {
            next.artifact_conversion_ns = saturate(phases.artifact_conversion_ns, elapsed_ns);
        },
        Phase::ArtifactSerializeHash => {
            next.artifact_serialize_hash_ns = saturate(
                phases.artifact_serialize_hash_ns,
                elapsed_ns,
            );
        },
        Phase::ResidentRuleValidation => {
            next.resident_rule_validation_ns = saturate(
                phases.resident_rule_validation_ns,
                elapsed_ns,
            );
        },
    }
    next
}

/// A profile in which nothing has happened.
pub open spec fn no_profile() -> CompileProfile {
    CompileProfile { phases: no_durations(), counters: no_counts() }
}

/// The profiles that profilers write to.
#[derive(Debug)]
pub struct ProfileStore {
    pub profiles: Vec<CompileProfile>,
}

impl ProfileStore {
    pub open spec fn view(&self) -> Seq<CompileProfile> {
        self.profiles@
    }

    /// A store without profiles.
    pub fn new() -> (store: Self)
        ensures
            store@ == Seq::<CompileProfile>::empty(),
    {
        ProfileStore { profiles: Vec::new() }
    }
}

/// A profile that grows while a compilation runs. A profiler names a profile of a store; a
/// clone names the same one, so that all of them write to it and read it.
#[derive(Clone, Copy, Debug)]
pub struct CompileProfiler {
    pub slot: usize,
}

/// The profile that a profiler names.
pub open spec fn profile_of(store: Seq<CompileProfile>, profiler: CompileProfiler) -> CompileProfile {
    store[profiler.slot as int]
}

/// A store after the profile that a profiler names was replaced.
pub open spec fn with_profile(
    store: Seq<CompileProfile>,
    profiler: CompileProfiler,
    profile: CompileProfile,
) -> Seq<CompileProfile> {
    store.update(profiler.slot as int, profile)
}

impl CompileProfiler {
    /// Whether a store holds the profile of this profiler.
    pub open spec fn belongs_to(&self, store: Seq<CompileProfile>) -> bool {
        self.slot < store.len()
    }

    /// A profiler with a profile of its own.
    pub fn new(store: &mut ProfileStore) -> (profiler: Self)
        ensures
            final(store)@ == old(store)@.push(no_profile()),
            profiler.slot == old(store)@.len(),
    {
        let slot = store.profiles.len();
        store.profiles.push(CompileProfile::default());
        CompileProfiler { slot }
    }

    /// The profile so far.
    pub fn snapshot(&self, store: &ProfileStore) -> (profile: CompileProfile)
        requires
            self.belongs_to(store@),
        ensures
            profile == profile_of(store@, *self),
    {
        store.profiles[self.slot]
    }

    /// Starts over.
    pub fn reset(&self, store: &mut ProfileStore)
        requires
            self.belongs_to(old(store)@),
        ensures
            final(store)@ == with_profile(old(store)@, *self, no_profile()),
    {
        store.profiles.set(self.slot, CompileProfile::default());
    }

    /// Adds nanoseconds to a phase.
    pub fn add_phase(&self, store: &mut ProfileStore, phase: Phase, elapsed_ns: u128)
        requires
            self.belongs_to(old(store)@),
        ensures
            final(store)@ == with_profile(
                old(store)@,
                *self,
                (CompileProfile {
                    phases: lengthened(
                        profile_of(old(store)@, *self).phases,
                        phase,
                        elapsed_ns as int,
                    ),
                    ..profile_of(old(store)@, *self)
                }),
            ),
    {
        let mut profile = store.profiles[self.slot];
        profile.phases = add_duration(profile.phases, phase, elapsed_ns);
        store.profiles.set(self.slot, profile);
    }

    /// Adds to a counter.
    pub fn count(&self, store: &mut ProfileStore, counter: Counter, times: u64)
        requires
            self.belongs_to(old(store)@),
        ensures
            final(store)@ == with_profile(
                old(store)@,
                *self,
                (CompileProfile {
                    counters: counted(
                        profile_of(old(store)@, *self).counters,
                        counter,
                        times as int,
                    ),
                    ..profile_of(old(store)@, *self)
                }),
            ),
    {
        let mut profile = store.profiles[self.slot];
        profile.counters = add_count(profile.counters, counter, times);
        store.profiles.set(self.slot, profile);
    }
}

// ---------------------------------------------------------------------------
// Laws
// ---------------------------------------------------------------------------

/// What is written through a profiler is what each of its clones reads, and what is written
/// through a clone is what the profiler reads. Every other profile stays as it is.
pub proof fn lemma_clones_share(
    store: Seq<CompileProfile>,
    profiler: CompileProfiler,
    other: CompileProfiler,
    profile: CompileProfile,
)
    requires
        profiler.belongs_to(store),
        other.belongs_to(store),
    ensures
        ({
            let after = with_profile(store, profiler, profile);
            &&& after.len() == store.len()
            &&& profiler == other ==> profile_of(after, other) == profile
            &&& profiler != other ==> profile_of(after, other) == profile_of(store, other)
        }),
{
}

/// After a profiler started over, each of its clones reads a profile in which nothing has
/// happened.
pub proof fn lemma_reset_reaches_clones(
    store: Seq<CompileProfile>,
    profiler: CompileProfiler,
    copy: CompileProfiler,
)
    requires
        profiler.belongs_to(store),
        call_ensures(CompileProfiler::clone, (&profiler,), copy),
    ensures
        copy.belongs_to(store),
        profile_of(with_profile(store, profiler, no_profile()), copy) == no_profile(),
{
}

} // verus!
