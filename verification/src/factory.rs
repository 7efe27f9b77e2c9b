//! Building memory engines from provider registrations, and checking at
//! startup that every pipeline route names a registered provider.

use std::collections::BTreeMap;

use vstd::prelude::*;

use crate::config::{ProviderRegistration, ReadPipeline, ReadProviderRoute, RecallProxyConfig, WritePipeline, WriteSink};
use crate::domain::EngineError;
use crate::memory::MemoryProviderKind;
use crate::memory_engines::episodic::{EpisodicEngine, EpisodicEngineConfig, Sessions};
use crate::memory_engines::semantic::{Entries, SemanticEngine, SemanticEngineConfig};
use crate::memory_engines::structural::{FactView, StructuralEngine, StructuralEngineConfig};
use crate::memory_engines::temporal::{TemporalEngine, TemporalEngineConfig, TimelineEntry};
use crate::text::{
    decimal, join, joined, parse_u64, parse_usize, parsed_u64, parsed_usize, same_text, usize_text,
};

verus! {

/// What a registration asks for: an SQLite store at a path, or one of the
/// in-memory engines with its configuration.
pub enum ProviderPlan {
    Sqlite { db_path: Seq<char>, kind: MemoryProviderKind },
    Episodic(EpisodicEngineConfig),
    Semantic(SemanticEngineConfig),
    Temporal(TemporalEngineConfig),
    Structure(StructuralEngineConfig),
}

impl ProviderPlan {
    /// The memory class that the planned engine reports.
    pub open spec fn kind(self) -> MemoryProviderKind {
        match self {
            ProviderPlan::Sqlite { kind, .. } => kind,
            ProviderPlan::Episodic(_) => MemoryProviderKind::Episodic,
            ProviderPlan::Semantic(_) => MemoryProviderKind::Semantic,
            ProviderPlan::Temporal(_) => MemoryProviderKind::Temporal,
            ProviderPlan::Structure(_) => MemoryProviderKind::Structure,
        }
    }
}

/// A numeric setting: its parsed value when present and well formed, else the default.
pub open spec fn setting_u64(settings: Map<Seq<char>, Seq<char>>, key: Seq<char>, default: u64) -> u64 {
    if settings.contains_key(key) && parsed_u64(settings[key]) is Some {
        parsed_u64(settings[key]).unwrap()
    } else {
        default
    }
}

/// A size setting: its parsed value when present and well formed, else the default.
pub open spec fn setting_usize(
    settings: Map<Seq<char>, Seq<char>>,
    key: Seq<char>,
    default: usize,
) -> usize {
    if settings.contains_key(key) && parsed_usize(settings[key]) is Some {
        parsed_usize(settings[key]).unwrap()
    } else {
        default
    }
}

/// The engine a registration asks for, or the message of the error that refuses it.
pub open spec fn planned(reg: ProviderRegistration, kind: MemoryProviderKind) -> Result<
    ProviderPlan,
    Seq<char>,
> {
    let t = reg.provider_type@;
    let s = reg.settings.deep_view();
    if t == "sqlite"@ {
        if s.contains_key("db_path"@) {
            Ok(ProviderPlan::Sqlite { db_path: s["db_path"@], kind })
        } else {
            Err("sqlite provider requires 'db_path' setting"@)
        }
    } else if t == "episodic"@ {
        Ok(
            ProviderPlan::Episodic(
                EpisodicEngineConfig {
                    max_age_minutes: setting_u64(s, "max_age_minutes"@, 1440),
                    max_entries_per_session: setting_usize(s, "max_entries_per_session"@, 10000),
                },
            ),
        )
    } else if t == "semantic"@ {
        Ok(
            ProviderPlan::Semantic(
                SemanticEngineConfig {
                    max_results: setting_usize(s, "max_results"@, 50),
                    enable_keyword_search: true,
                },
            ),
        )
    } else if t == "temporal"@ {
        Ok(
            ProviderPlan::Temporal(
                TemporalEngineConfig {
                    max_entries: setting_usize(s, "max_entries"@, 100000),
                    enable_time_filtering: true,
                },
            ),
        )
    } else if t == "structural"@ {
        Ok(
            ProviderPlan::Structure(
                StructuralEngineConfig {
                    max_facts: setting_usize(s, "max_facts"@, 50000),
                    enable_relationships: true,
                },
            ),
        )
    } else {
        Err("unsupported provider type: "@ + t)
    }
}

/// The memory class a registration's engine is filed under when all providers
/// are built at once; unknown types count as semantic.
pub open spec fn kind_for_type(t: Seq<char>) -> MemoryProviderKind {
    if t == "structural"@ {
        MemoryProviderKind::Structure
    } else if t == "temporal"@ {
        MemoryProviderKind::Temporal
    } else if t == "episodic"@ {
        MemoryProviderKind::Episodic
    } else {
        MemoryProviderKind::Semantic
    }
}

/// The plans of the enabled registrations among the first `n`, in order, or
/// the message of the first one refused.
pub open spec fn enabled_plans(regs: Seq<ProviderRegistration>, n: int) -> Result<
    Seq<ProviderPlan>,
    Seq<char>,
>
    decreases n,
{
    if n <= 0 {
        Ok(Seq::empty())
    } else {
        match enabled_plans(regs, n - 1) {
            Err(m) => Err(m),
            Ok(ps) => {
                let reg = regs[n - 1];
                if !reg.enabled {
                    Ok(ps)
                } else {
                    match planned(reg, kind_for_type(reg.provider_type@)) {
                        Ok(p) => Ok(ps.push(p)),
                        Err(m) => Err(m),
                    }
                }
            },
        }
    }
}

/// Number of enabled registrations among the first `n`.
pub open spec fn enabled_count(regs: Seq<ProviderRegistration>, n: int) -> nat
    decreases n,
{
    if n <= 0 {
        0
    } else {
        enabled_count(regs, n - 1) + if regs[n - 1].enabled {
            1nat
        } else {
            0nat
        }
    }
}

/// An engine built from a registration. The SQLite variant names the store to
/// open; the connection is made by the caller.
pub enum ProviderEngine {
    Sqlite { db_path: String, memory_type: MemoryProviderKind },
    Episodic(EpisodicEngine),
    Semantic(SemanticEngine),
    Temporal(TemporalEngine),
    Structure(StructuralEngine),
}

impl ProviderEngine {
    /// The plan this engine carries out.
    pub open spec fn plan(&self) -> ProviderPlan {
        match self {
            ProviderEngine::Sqlite { db_path, memory_type } => ProviderPlan::Sqlite {
                db_path: db_path@,
                kind: *memory_type,
            },
            ProviderEngine::Episodic(e) => ProviderPlan::Episodic(e.settings()),
            ProviderEngine::Semantic(e) => ProviderPlan::Semantic(e.settings()),
            ProviderEngine::Temporal(e) => ProviderPlan::Temporal(e.settings()),
            ProviderEngine::Structure(e) => ProviderPlan::Structure(e.settings()),
        }
    }

    /// A well-formed engine that holds nothing yet.
    pub open spec fn is_fresh(&self) -> bool {
        match self {
            ProviderEngine::Sqlite { .. } => true,
            ProviderEngine::Episodic(e) => e.wf() && e.sessions() == Sessions::empty(),
            ProviderEngine::Semantic(e) => e.wf() && e.entries() == Entries::empty(),
            ProviderEngine::Temporal(e) => e.wf() && e.timeline() == Seq::<TimelineEntry>::empty(),
            ProviderEngine::Structure(e) => e.wf() && e.facts_view() == Seq::<FactView>::empty(),
        }
    }

    /// The memory class the engine reports.
    pub fn memory_type(&self) -> (k: MemoryProviderKind)
        ensures
            k == self.plan().kind(),
    {
        match self {
            ProviderEngine::Sqlite { memory_type, .. } => *memory_type,
            ProviderEngine::Episodic(e) => e.memory_type(),
            ProviderEngine::Semantic(e) => e.memory_type(),
            ProviderEngine::Temporal(e) => e.memory_type(),
            ProviderEngine::Structure(e) => e.memory_type(),
        }
    }
}

/// `BTreeMap::get` on a provider's settings: the value filed under `key`.
#[verifier::external_body]
fn setting<'a>(settings: &'a BTreeMap<String, String>, key: &str) -> (r: Option<&'a String>)
    ensures
        r is Some <==> settings.deep_view().contains_key(key@),
        r is Some ==> r.unwrap()@ == settings.deep_view()[key@],
{
    settings.get(key)
}

/// A numeric setting, or `default` when it is absent or not a number.
fn setting_or_u64(settings: &BTreeMap<String, String>, key: &str, default: u64) -> (n: u64)
    ensures
        n == setting_u64(settings.deep_view(), key@, default),
{
    match setting(settings, key) {
        Some(v) => match parse_u64(v.as_str()) {
            Some(n) => n,
            None => default,
        },
        None => default,
    }
}

/// A size setting, or `default` when it is absent or not a number.
fn setting_or_usize(settings: &BTreeMap<String, String>, key: &str, default: usize) -> (n: usize)
    ensures
        n == setting_usize(settings.deep_view(), key@, default),
{
    match setting(settings, key) {
        Some(v) => match parse_usize(v.as_str()) {
            Some(n) => n,
            None => default,
        },
        None => default,
    }
}

/// Builds the engine a registration asks for. An SQLite registration needs a
/// `db_path` setting; the in-memory engines read their limits from the
/// settings and fall back to defaults. `memory_type` is what an SQLite store
/// reports.
pub fn create_provider(registration: &ProviderRegistration, memory_type: MemoryProviderKind) -> (r:
    Result<ProviderEngine, EngineError>)
    ensures
        match (planned(*registration, memory_type), r) {
            (Ok(p), Ok(engine)) => engine.plan() == p && engine.is_fresh(),
            (Err(m), Err(e)) => e@ == m,
            _ => false,
        },
{
    let t = registration.provider_type.as_str();
    let settings = &registration.settings;
    if same_text(t, "sqlite") {
        match setting(settings, "db_path") {
            Some(p) => Ok(ProviderEngine::Sqlite { db_path: p.clone(), memory_type }),
            None => Err(EngineError::new("sqlite provider requires 'db_path' setting")),
        }
    } else if same_text(t, "episodic") {
        let max_age_minutes = setting_or_u64(settings, "max_age_minutes", 1440);
        let max_entries_per_session = setting_or_usize(settings, "max_entries_per_session", 10000);
        Ok(
            ProviderEngine::Episodic(
                EpisodicEngine::new(EpisodicEngineConfig { max_age_minutes, max_entries_per_session }),
            ),
        )
    } else if same_text(t, "semantic") {
        let max_results = setting_or_usize(settings, "max_results", 50);
        Ok(
            ProviderEngine::Semantic(
                SemanticEngine::new(SemanticEngineConfig { max_results, enable_keyword_search: true }),
            ),
        )
    } else if same_text(t, "temporal") {
        let max_entries = setting_or_usize(settings, "max_entries", 100000);
        Ok(
            ProviderEngine::Temporal(
                TemporalEngine::new(TemporalEngineConfig { max_entries, enable_time_filtering: true }),
            ),
        )
    } else if same_text(t, "structural") {
        let max_facts = setting_or_usize(settings, "max_facts", 50000);
        Ok(
            ProviderEngine::Structure(
                StructuralEngine::new(StructuralEngineConfig { max_facts, enable_relationships: true }),
            ),
        )
    } else {
        let mut message = String::from_str("unsupported provider type: ");
        message.append(t);
        Err(EngineError::from_message(message))
    }
}

/// The memory class for a provider type, as `create_all_providers` files it.
pub fn kind_of_type(t: &str) -> (k: MemoryProviderKind)
    ensures
        k == kind_for_type(t@),
{
    if same_text(t, "structural") {
        MemoryProviderKind::Structure
    } else if same_text(t, "temporal") {
        MemoryProviderKind::Temporal
    } else if same_text(t, "episodic") {
        MemoryProviderKind::Episodic
    } else {
        MemoryProviderKind::Semantic
    }
}

/// Builds an engine for every enabled registration, in order, and stops at the
/// first registration that cannot be built.
pub fn create_all_providers(config: &RecallProxyConfig) -> (r: Result<Vec<ProviderEngine>, EngineError>)
    ensures
        match (enabled_plans(config.providers@, config.providers@.len() as int), r) {
            (Ok(ps), Ok(engines)) => engines@.len() == ps.len() && forall|i: int|
                0 <= i < ps.len() ==> (#[trigger] engines@[i]).plan() == ps[i]
                    && engines@[i].is_fresh(),
            (Err(m), Err(e)) => e@ == m,
            _ => false,
        },
{
    let mut engines: Vec<ProviderEngine> = Vec::new();
    let mut i: usize = 0;
    while i < config.providers.len()
        invariant
            i <= config.providers@.len(),
            enabled_plans(config.providers@, i as int) is Ok,
            engines@.len() == enabled_plans(config.providers@, i as int)->Ok_0.len(),
            forall|j: int|
                0 <= j < engines@.len() ==> (#[trigger] engines@[j]).plan() == enabled_plans(
                    config.providers@,
                    i as int,
                )->Ok_0[j] && engines@[j].is_fresh(),
        decreases config.providers@.len() - i,
    {
        let registration = &config.providers[i];
        if registration.enabled {
            let memory_type = kind_of_type(registration.provider_type.as_str());
            match create_provider(registration, memory_type) {
                Ok(engine) => {
                    engines.push(engine);
                },
                Err(e) => {
                    proof {
                        lemma_first_refusal_stands(config.providers@, i as int + 1);
                    }
                    return Err(e);
                },
            }
        }
        i = i + 1;
    }
    Ok(engines)
}

/// Once a registration among the first `n` is refused, the refusal is what
/// every longer prefix yields.
proof fn lemma_first_refusal_stands(regs: Seq<ProviderRegistration>, n: int)
    requires
        0 <= n <= regs.len(),
        enabled_plans(regs, n) is Err,
    ensures
        enabled_plans(regs, regs.len() as int) == enabled_plans(regs, n),
    decreases regs.len() - n,
{
    if n < regs.len() {
        lemma_first_refusal_stands(regs, n + 1);
    }
}

/// Building all providers yields one engine per enabled registration, and
/// succeeds exactly when every enabled registration can be built.
pub proof fn lemma_one_engine_per_enabled_registration(regs: Seq<ProviderRegistration>, n: int)
    requires
        0 <= n <= regs.len(),
    ensures
        enabled_plans(regs, n) is Ok <==> (forall|i: int|
            0 <= i < n && (#[trigger] regs[i]).enabled ==> planned(
                regs[i],
                kind_for_type(regs[i].provider_type@),
            ) is Ok),
        enabled_plans(regs, n) is Ok ==> enabled_plans(regs, n)->Ok_0.len() == enabled_count(
            regs,
            n,
        ),
    decreases n,
{
    if n > 0 {
        lemma_one_engine_per_enabled_registration(regs, n - 1);
    }
}

/// Whether an enabled registration carries the id.
pub open spec fn registered(providers: Seq<ProviderRegistration>, id: Seq<char>) -> bool {
    exists|i: int| 0 <= i < providers.len() && (#[trigger] providers[i]).enabled && providers[i].id@ == id
}

/// The report of a read route whose provider is not registered.
pub open spec fn missing_read_provider(pipeline: Seq<char>, provider: Seq<char>) -> Seq<char> {
    "read_pipeline["@ + pipeline + "].provider["@ + provider + "]: provider '"@ + provider
        + "' not found"@
}

/// The report of a write sink whose provider is not registered.
pub open spec fn missing_write_provider(pipeline: Seq<char>, provider: Seq<char>) -> Seq<char> {
    "write_pipeline["@ + pipeline + "].sink["@ + provider + "]: provider '"@ + provider
        + "' not found"@
}

/// Reports for the first `n` routes of a read pipeline.
pub open spec fn route_problems(
    providers: Seq<ProviderRegistration>,
    pipeline: Seq<char>,
    routes: Seq<ReadProviderRoute>,
    n: int,
) -> Seq<Seq<char>>
    decreases n,
{
    if n <= 0 {
        Seq::empty()
    } else {
        let before = route_problems(providers, pipeline, routes, n - 1);
        let id = routes[n - 1].provider_id@;
        if registered(providers, id) {
            before
        } else {
            before.push(missing_read_provider(pipeline, id))
        }
    }
}

/// Reports for the first `n` read pipelines.
pub open spec fn read_problems(
    providers: Seq<ProviderRegistration>,
    pipelines: Seq<ReadPipeline>,
    n: int,
) -> Seq<Seq<char>>
    decreases n,
{
    if n <= 0 {
        Seq::empty()
    } else {
        let p = pipelines[n - 1];
        read_problems(providers, pipelines, n - 1) + route_problems(
            providers,
            p.id@,
            p.providers@,
            p.providers@.len() as int,
        )
    }
}

/// Reports for the first `n` sinks of a write pipeline.
pub open spec fn sink_problems(
    providers: Seq<ProviderRegistration>,
    pipeline: Seq<char>,
    sinks: Seq<WriteSink>,
    n: int,
) -> Seq<Seq<char>>
    decreases n,
{
    if n <= 0 {
        Seq::empty()
    } else {
        let before = sink_problems(providers, pipeline, sinks, n - 1);
        let id = sinks[n - 1].provider_id@;
        if registered(providers, id) {
            before
        } else {
            before.push(missing_write_provider(pipeline, id))
        }
    }
}

/// Reports for the first `n` write pipelines.
pub open spec fn write_problems(
    providers: Seq<ProviderRegistration>,
    pipelines: Seq<WritePipeline>,
    n: int,
) -> Seq<Seq<char>>
    decreases n,
{
    if n <= 0 {
        Seq::empty()
    } else {
        let p = pipelines[n - 1];
        write_problems(providers, pipelines, n - 1) + sink_problems(
            providers,
            p.id@,
            p.sinks@,
            p.sinks@.len() as int,
        )
    }
}

/// Every report of a configuration: read routes first, then write sinks, each
/// in configuration order.
pub open spec fn startup_problems(config: RecallProxyConfig) -> Seq<Seq<char>> {
    read_problems(config.providers@, config.read_pipelines@, config.read_pipelines@.len() as int)
        + write_problems(
        config.providers@,
        config.write_pipelines@,
        config.write_pipelines@.len() as int,
    )
}

/// The message of a failed startup validation.
pub open spec fn validation_failure(problems: Seq<Seq<char>>) -> Seq<char> {
    "startup validation failed: "@ + decimal(problems.len()) + " missing provider(s): "@ + joined(
        problems,
        "; "@,
    )
}

/// Whether an enabled registration carries the id.
fn is_registered(providers: &Vec<ProviderRegistration>, id: &str) -> (r: bool)
    ensures
        r == registered(providers@, id@),
{
    let mut i: usize = 0;
    while i < providers.len()
        invariant
            i <= providers@.len(),
            forall|j: int|
                0 <= j < i ==> !((#[trigger] providers@[j]).enabled && providers@[j].id@ == id@),
        decreases providers@.len() - i,
    {
        if providers[i].enabled && same_text(providers[i].id.as_str(), id) {
            return true;
        }
        i = i + 1;
    }
    false
}

/// `prefix[pipeline].slot[provider]: provider 'provider' not found`.
fn missing_report(prefix: &str, pipeline: &str, slot: &str, provider: &str) -> (m: String)
    ensures
        m@ == prefix@ + pipeline@ + slot@ + provider@ + "]: provider '"@ + provider@
            + "' not found"@,
{
    let mut m = String::from_str(prefix);
    m.append(pipeline);
    m.append(slot);
    m.append(provider);
    m.append("]: provider '");
    m.append(provider);
    m.append("' not found");
    m
}

proof fn lemma_views_push(v: Seq<String>, s: String)
    ensures
        v.push(s).map_values(|p: String| p@) == v.map_values(|p: String| p@).push(s@),
{
    assert(v.push(s).map_values(|p: String| p@) =~= v.map_values(|p: String| p@).push(s@));
}

/// Checks that every read route and write sink names an enabled registration.
/// Succeeds with no reports, or fails with all of them.
pub fn validate_provider_routes(config: &RecallProxyConfig) -> (r: Result<Vec<String>, EngineError>)
    ensures
        startup_problems(*config).len() == 0 ==> r is Ok && r->Ok_0@.len() == 0,
        startup_problems(*config).len() > 0 ==> r is Err && r->Err_0@ == validation_failure(
            startup_problems(*config),
        ),
{
    let providers = &config.providers;
    let ghost regs = config.providers@;
    let mut missing: Vec<String> = Vec::new();
    let mut i: usize = 0;
    while i < config.read_pipelines.len()
        invariant
            i <= config.read_pipelines@.len(),
            regs == providers@,
            missing@.map_values(|p: String| p@) == read_problems(
                regs,
                config.read_pipelines@,
                i as int,
            ),
        decreases config.read_pipelines@.len() - i,
    {
        let pipeline = &config.read_pipelines[i];
        let ghost before = missing@.map_values(|p: String| p@);
        let mut j: usize = 0;
        while j < pipeline.providers.len()
            invariant
                j <= pipeline.providers@.len(),
                regs == providers@,
                missing@.map_values(|p: String| p@) == before + route_problems(
                    regs,
                    pipeline.id@,
                    pipeline.providers@,
                    j as int,
                ),
            decreases pipeline.providers@.len() - j,
        {
            let id = pipeline.providers[j].provider_id.as_str();
            if !is_registered(providers, id) {
                let m = missing_report("read_pipeline[", pipeline.id.as_str(), "].provider[", id);
                proof {
                    lemma_views_push(missing@, m);
                }
                missing.push(m);
            }
            j = j + 1;
        }
        i = i + 1;
    }
    let ghost reads = missing@.map_values(|p: String| p@);
    let mut i: usize = 0;
    while i < config.write_pipelines.len()
        invariant
            i <= config.write_pipelines@.len(),
            regs == providers@,
            missing@.map_values(|p: String| p@) == reads + write_problems(
                regs,
                config.write_pipelines@,
                i as int,
            ),
        decreases config.write_pipelines@.len() - i,
    {
        let pipeline = &config.write_pipelines[i];
        let ghost before = missing@.map_values(|p: String| p@);
        let mut j: usize = 0;
        while j < pipeline.sinks.len()
            invariant
                j <= pipeline.sinks@.len(),
                regs == providers@,
                missing@.map_values(|p: String| p@) == before + sink_problems(
                    regs,
                    pipeline.id@,
                    pipeline.sinks@,
                    j as int,
                ),
            decreases pipeline.sinks@.len() - j,
        {
            let id = pipeline.sinks[j].provider_id.as_str();
            if !is_registered(providers, id) {
                let m = missing_report("write_pipeline[", pipeline.id.as_str(), "].sink[", id);
                proof {
                    lemma_views_push(missing@, m);
                }
                missing.push(m);
            }
            j = j + 1;
        }
        i = i + 1;
    }
    if missing.len() == 0 {
        Ok(missing)
    } else {
        let mut message = String::from_str("startup validation failed: ");
        message.append(usize_text(missing.len()).as_str());
        message.append(" missing provider(s): ");
        message.append(join(&missing, "; ").as_str());
        Err(EngineError::from_message(message))
    }
}

proof fn lemma_route_problems_empty(
    providers: Seq<ProviderRegistration>,
    pipeline: Seq<char>,
    routes: Seq<ReadProviderRoute>,
    n: int,
)
    requires
        0 <= n <= routes.len(),
    ensures
        route_problems(providers, pipeline, routes, n).len() == 0 <==> forall|j: int|
            0 <= j < n ==> registered(providers, (#[trigger] routes[j]).provider_id@),
    decreases n,
{
    if n > 0 {
        lemma_route_problems_empty(providers, pipeline, routes, n - 1);
    }
}

proof fn lemma_sink_problems_empty(
    providers: Seq<ProviderRegistration>,
    pipeline: Seq<char>,
    sinks: Seq<WriteSink>,
    n: int,
)
    requires
        0 <= n <= sinks.len(),
    ensures
        sink_problems(providers, pipeline, sinks, n).len() == 0 <==> forall|j: int|
            0 <= j < n ==> registered(providers, (#[trigger] sinks[j]).provider_id@),
    decreases n,
{
    if n > 0 {
        lemma_sink_problems_empty(providers, pipeline, sinks, n - 1);
    }
}

proof fn lemma_read_problems_empty(
    providers: Seq<ProviderRegistration>,
    pipelines: Seq<ReadPipeline>,
    n: int,
)
    requires
        0 <= n <= pipelines.len(),
    ensures
        read_problems(providers, pipelines, n).len() == 0 <==> forall|i: int, j: int|
            0 <= i < n && 0 <= j < pipelines[i].providers@.len() ==> registered(
                providers,
                (#[trigger] pipelines[i].providers@[j]).provider_id@,
            ),
    decreases n,
{
    if n > 0 {
        let p = pipelines[n - 1];
        lemma_read_problems_empty(providers, pipelines, n - 1);
        lemma_route_problems_empty(providers, p.id@, p.providers@, p.providers@.len() as int);
    }
}

proof fn lemma_write_problems_empty(
    providers: Seq<ProviderRegistration>,
    pipelines: Seq<WritePipeline>,
    n: int,
)
    requires
        0 <= n <= pipelines.len(),
    ensures
        write_problems(providers, pipelines, n).len() == 0 <==> forall|i: int, j: int|
            0 <= i < n && 0 <= j < pipelines[i].sinks@.len() ==> registered(
                providers,
                (#[trigger] pipelines[i].sinks@[j]).provider_id@,
            ),
    decreases n,
{
    if n > 0 {
        let p = pipelines[n - 1];
        lemma_write_problems_empty(providers, pipelines, n - 1);
        lemma_sink_problems_empty(providers, p.id@, p.sinks@, p.sinks@.len() as int);
    }
}

/// Startup validation passes exactly when every read route and every write
/// sink names an enabled registration.
pub proof fn lemma_validation_passes_iff_routes_resolve(config: RecallProxyConfig)
    ensures
        startup_problems(config).len() == 0 <==> (forall|i: int, j: int|
            0 <= i < config.read_pipelines@.len() && 0 <= j
                < config.read_pipelines@[i].providers@.len() ==> registered(
                config.providers@,
                (#[trigger] config.read_pipelines@[i].providers@[j]).provider_id@,
            )) && (forall|i: int, j: int|
            0 <= i < config.write_pipelines@.len() && 0 <= j
                < config.write_pipelines@[i].sinks@.len() ==> registered(
                config.providers@,
                (#[trigger] config.write_pipelines@[i].sinks@[j]).provider_id@,
            )),
{
    lemma_read_problems_empty(
        config.providers@,
        config.read_pipelines@,
        config.read_pipelines@.len() as int,
    );
    lemma_write_problems_empty(
        config.providers@,
        config.write_pipelines@,
        config.write_pipelines@.len() as int,
    );
}

} // verus!
