//! The configuration-resolution engine: builds the ancestor chain of a
//! project, merges the chain's raw configurations root-to-leaf, validates
//! the per-project cache, and assembles the cache record to persist.
//!
//! File reading, parsing and writing stay with the caller: the engine works
//! on parsed configurations and recorded modification times handed in as
//! plain values, so every decision here is verified.

use vstd::prelude::*;

use crate::graph::{chain_uuids, GlobalIndex};
use crate::models::{
    ConfigCache, IndexEntryV, OptionsConfig, ProjectConfig, ProjectConfigV, ResolvedConfig,
};
use crate::smap::{DeepClone, SMap};

verus! {

/// What configuration resolution can fail with.
#[derive(Debug)]
pub enum ResolverError {
    /// An identity referenced by the graph was not found in it.
    UuidNotFoundInIndex { uuid: u128 },
    /// A chain member's raw configuration file is missing.
    ConfigFileNotFound { name: String, path: String },
    /// The ancestor chain never reached the root.
    CycleDetected { uuid: u128 },
}

/// One member of the ancestor chain, root first: its identity, display name
/// and project root, plus where its raw configuration file lives.
pub struct ChainNode {
    pub uuid: u128,
    pub name: String,
    pub project_root: String,
    pub config_path: String,
}

/// A raw configuration as read from disk, with the file's modification time.
pub struct LoadedConfig {
    pub mtime: u128,
    pub config: ProjectConfig,
}

/// The ghost mirror of [`LoadedConfig`].
#[verifier::ext_equal]
pub ghost struct LoadedConfigV {
    pub mtime: u128,
    pub config: ProjectConfigV,
}

impl DeepView for LoadedConfig {
    type V = LoadedConfigV;

    open spec fn deep_view(&self) -> LoadedConfigV {
        LoadedConfigV { mtime: self.mtime, config: self.config.deep_view() }
    }
}

/// Builds the ancestor chain of an identity, root first.
pub fn build_inheritance_chain(leaf_uuid: u128, index: &GlobalIndex) -> (r: Result<
    Vec<ChainNode>,
    ResolverError,
>)
    requires
        index.wf(),
    ensures
        ({
            let m = index.projects_map();
            let cu = chain_uuids(m, leaf_uuid, index.kv().len() as nat);
            match r {
                Ok(v) => cu matches Some(us) && v@.len() == us.len() && forall|i: int|
                    0 <= i < us.len() ==> m.contains_key(#[trigger] us[i]) && v@[i].uuid == us[i]
                        && v@[i].name@ == m[us[i]].name && v@[i].project_root@ == m[us[i]].path
                        && v@[i].config_path@ == m[us[i]].path + "/.axes/axes.toml"@,
                Err(ResolverError::UuidNotFoundInIndex { uuid }) => cu is None
                    && !m.contains_key(uuid) && crate::graph::walk_hits(
                    m,
                    leaf_uuid,
                    uuid,
                    index.kv().len() as nat,
                ),
                Err(ResolverError::CycleDetected { uuid }) => cu is None && m.contains_key(
                    leaf_uuid,
                ) && crate::graph::walk_hits(m, leaf_uuid, uuid, index.kv().len() as nat),
                Err(_) => false,
            }
        }),
        // an unregistered leaf is reported as exactly that
        !index.projects_map().contains_key(leaf_uuid) ==> (r matches Err(
            ResolverError::UuidNotFoundInIndex { uuid },
        ) && uuid == leaf_uuid),
{
    let fuel = index.project_count();
    chain_nodes(index, leaf_uuid, fuel)
}

/// Recursive worker for [`build_inheritance_chain`], mirroring the ghost
/// chain definition step by step.
fn chain_nodes(index: &GlobalIndex, x: u128, fuel: usize) -> (r: Result<
    Vec<ChainNode>,
    ResolverError,
>)
    requires
        index.wf(),
    ensures
        ({
            let m = index.projects_map();
            let cu = chain_uuids(m, x, fuel as nat);
            match r {
                Ok(v) => cu matches Some(us) && v@.len() == us.len() && forall|i: int|
                    0 <= i < us.len() ==> m.contains_key(#[trigger] us[i]) && v@[i].uuid == us[i]
                        && v@[i].name@ == m[us[i]].name && v@[i].project_root@ == m[us[i]].path
                        && v@[i].config_path@ == m[us[i]].path + "/.axes/axes.toml"@,
                Err(ResolverError::UuidNotFoundInIndex { uuid }) => cu is None
                    && !m.contains_key(uuid) && crate::graph::walk_hits(m, x, uuid, fuel as nat),
                Err(ResolverError::CycleDetected { uuid }) => cu is None && m.contains_key(x)
                    && crate::graph::walk_hits(m, x, uuid, fuel as nat),
                Err(_) => false,
            }
        }),
        !index.projects_map().contains_key(x) ==> (r matches Err(
            ResolverError::UuidNotFoundInIndex { uuid },
        ) && uuid == x),
    decreases fuel,
{
    let ghost m = index.projects_map();
    let entry = match index.get_entry(x) {
        Some(e) => e,
        None => {
            return Err(ResolverError::UuidNotFoundInIndex { uuid: x });
        },
    };
    let node = ChainNode {
        uuid: x,
        name: entry.name.deep_clone(),
        project_root: entry.path.deep_clone(),
        config_path: crate::paths::project_config_path(entry.path.as_str()),
    };
    match entry.parent {
        None => {
            let mut v: Vec<ChainNode> = Vec::new();
            v.push(node);
            proof {
                let us = chain_uuids(m, x, fuel as nat)->0;
                assert(us =~= seq![x]);
            }
            Ok(v)
        },
        Some(p) => {
            if fuel == 0 {
                return Err(ResolverError::CycleDetected { uuid: x });
            }
            match chain_nodes(index, p, fuel - 1) {
                Err(e) => Err(e),
                Ok(mut v) => {
                    let ghost us_p = chain_uuids(m, p, (fuel - 1) as nat)->0;
                    let ghost before = v@;
                    v.push(node);
                    proof {
                        let us = chain_uuids(m, x, fuel as nat)->0;
                        assert(us =~= us_p.push(x));
                        assert forall|i: int| 0 <= i < us.len() implies m.contains_key(
                            #[trigger] us[i],
                        ) && v@[i].uuid == us[i] && v@[i].name@ == m[us[i]].name
                            && v@[i].project_root@ == m[us[i]].path && v@[i].config_path@
                            == m[us[i]].path + "/.axes/axes.toml"@ by {
                            if i < us_p.len() {
                                assert(v@[i] == before[i]);
                                assert(us[i] == us_p[i]);
                            } else {
                                assert(us[i] == x);
                            }
                        }
                    }
                    Ok(v)
                },
            }
        },
    }
}

/// The nearest-defined version along the chain, leaf first.
pub open spec fn merged_version(chain: Seq<ProjectConfigV>) -> Option<Seq<char>>
    decreases chain.len(),
{
    if chain.len() == 0 {
        None
    } else if chain.last().version is Some {
        chain.last().version
    } else {
        merged_version(chain.drop_last())
    }
}

/// The nearest-defined description along the chain.
pub open spec fn merged_description(chain: Seq<ProjectConfigV>) -> Option<Seq<char>>
    decreases chain.len(),
{
    if chain.len() == 0 {
        None
    } else if chain.last().description is Some {
        chain.last().description
    } else {
        merged_description(chain.drop_last())
    }
}

/// The nearest-defined `at_start` option along the chain.
pub open spec fn merged_at_start(chain: Seq<ProjectConfigV>) -> Option<Seq<char>>
    decreases chain.len(),
{
    if chain.len() == 0 {
        None
    } else if chain.last().options.at_start is Some {
        chain.last().options.at_start
    } else {
        merged_at_start(chain.drop_last())
    }
}

/// The nearest-defined `at_exit` option along the chain.
pub open spec fn merged_at_exit(chain: Seq<ProjectConfigV>) -> Option<Seq<char>>
    decreases chain.len(),
{
    if chain.len() == 0 {
        None
    } else if chain.last().options.at_exit is Some {
        chain.last().options.at_exit
    } else {
        merged_at_exit(chain.drop_last())
    }
}

/// The nearest-defined shell option along the chain.
pub open spec fn merged_shell(chain: Seq<ProjectConfigV>) -> Option<Seq<char>>
    decreases chain.len(),
{
    if chain.len() == 0 {
        None
    } else if chain.last().options.shell is Some {
        chain.last().options.shell
    } else {
        merged_shell(chain.drop_last())
    }
}

/// The key-by-key merge of `open_with` tables, children overwriting.
pub open spec fn merged_open_with(chain: Seq<ProjectConfigV>) -> Map<Seq<char>, Seq<char>>
    decreases chain.len(),
{
    if chain.len() == 0 {
        Map::empty()
    } else {
        merged_open_with(chain.drop_last()).union_prefer_right(chain.last().options.open_with)
    }
}

/// The key-by-key merge of `vars` tables, children overwriting.
pub open spec fn merged_vars(chain: Seq<ProjectConfigV>) -> Map<Seq<char>, Seq<char>>
    decreases chain.len(),
{
    if chain.len() == 0 {
        Map::empty()
    } else {
        merged_vars(chain.drop_last()).union_prefer_right(chain.last().vars)
    }
}

/// The key-by-key merge of `env` tables, children overwriting.
pub open spec fn merged_env(chain: Seq<ProjectConfigV>) -> Map<Seq<char>, Seq<char>>
    decreases chain.len(),
{
    if chain.len() == 0 {
        Map::empty()
    } else {
        merged_env(chain.drop_last()).union_prefer_right(chain.last().env)
    }
}

/// The visible command set: whatever the most specific chain member that
/// defines any commands holds, entire and unmerged.
pub open spec fn merged_commands(chain: Seq<ProjectConfigV>) -> Map<
    Seq<char>,
    crate::models::CommandV,
>
    decreases chain.len(),
{
    if chain.len() == 0 {
        Map::empty()
    } else if chain.last().commands =~= Map::<Seq<char>, crate::models::CommandV>::empty() {
        merged_commands(chain.drop_last())
    } else {
        chain.last().commands
    }
}

/// Merges a root-first chain of raw configurations into one resolved view.
///
/// Identity fields (`uuid`, `qualified_name`, `project_root`) are left empty
/// for the caller of the resolution to stamp.
pub fn merge_chain_into_config(chain: Vec<ProjectConfig>) -> (r: ResolvedConfig)
    requires
        forall|i: int| 0 <= i < chain@.len() ==> (#[trigger] chain@[i]).wf(),
    ensures
        r.wf(),
        r.uuid == 0,
        r.qualified_name@ == Seq::<char>::empty(),
        r.project_root@ == Seq::<char>::empty(),
        r.version.deep_view() == merged_version(chain.deep_view()),
        r.description.deep_view() == merged_description(chain.deep_view()),
        r.options.at_start.deep_view() == merged_at_start(chain.deep_view()),
        r.options.at_exit.deep_view() == merged_at_exit(chain.deep_view()),
        r.options.shell.deep_view() == merged_shell(chain.deep_view()),
        r.options.open_with@ == merged_open_with(chain.deep_view()),
        r.vars@ == merged_vars(chain.deep_view()),
        r.env@ == merged_env(chain.deep_view()),
        r.commands@ == merged_commands(chain.deep_view()),
    decreases chain@.len(),
{
    let ghost cv = chain.deep_view();
    let mut resolved = ResolvedConfig {
        uuid: 0,
        qualified_name: String::new(),
        project_root: String::new(),
        version: None,
        description: None,
        commands: SMap::new(),
        options: OptionsConfig::new(),
        vars: SMap::new(),
        env: SMap::new(),
    };
    let mut i: usize = 0;
    while i < chain.len()
        invariant
            i <= chain.len(),
            cv == chain.deep_view(),
            forall|l: int| 0 <= l < chain@.len() ==> (#[trigger] chain@[l]).wf(),
            resolved.wf(),
            resolved.uuid == 0,
            resolved.qualified_name@ == Seq::<char>::empty(),
            resolved.project_root@ == Seq::<char>::empty(),
            resolved.version.deep_view() == merged_version(cv.take(i as int)),
            resolved.description.deep_view() == merged_description(cv.take(i as int)),
            resolved.options.at_start.deep_view() == merged_at_start(cv.take(i as int)),
            resolved.options.at_exit.deep_view() == merged_at_exit(cv.take(i as int)),
            resolved.options.shell.deep_view() == merged_shell(cv.take(i as int)),
            resolved.options.open_with@ == merged_open_with(cv.take(i as int)),
            resolved.vars@ == merged_vars(cv.take(i as int)),
            resolved.env@ == merged_env(cv.take(i as int)),
            resolved.commands@ == merged_commands(cv.take(i as int)),
        decreases chain.len() - i,
    {
        proof {
            assert(cv[i as int] == chain@[i as int].deep_view());
            let next = cv.take(i + 1);
            assert(next.drop_last() =~= cv.take(i as int));
            assert(next.last() == cv[i as int]);
        }
        let c = &chain[i];
        if c.version.is_some() {
            resolved.version = c.version.deep_clone();
        }
        if c.description.is_some() {
            resolved.description = c.description.deep_clone();
        }
        if c.options.at_start.is_some() {
            resolved.options.at_start = c.options.at_start.deep_clone();
        }
        if c.options.at_exit.is_some() {
            resolved.options.at_exit = c.options.at_exit.deep_clone();
        }
        if c.options.shell.is_some() {
            resolved.options.shell = c.options.shell.deep_clone();
        }
        resolved.options.open_with.extend(&c.options.open_with);
        resolved.vars.extend(&c.vars);
        resolved.env.extend(&c.env);
        if !c.commands.is_empty() {
            resolved.commands = c.commands.duplicate();
        }
        i += 1;
    }
    proof {
        assert(cv.take(chain@.len() as int) =~= cv);
    }
    resolved
}

/// Whether a cache snapshot may be served: the cached qualified name must be
/// the one requested, and every recorded dependency must still exist with a
/// modification time no newer than recorded.
pub open spec fn spec_cache_valid(
    cached_name: Seq<char>,
    deps: Seq<(Seq<char>, u128)>,
    expected_name: Seq<char>,
    current_mtimes: Seq<Option<u128>>,
) -> bool {
    &&& cached_name == expected_name
    &&& current_mtimes.len() == deps.len()
    &&& forall|i: int|
        0 <= i < deps.len() ==> (#[trigger] current_mtimes[i]) is Some && current_mtimes[i]->0
            <= deps[i].1
}

/// Decides whether a cache record is still valid, from the requested name
/// and the current modification time of each recorded dependency (`None`
/// for a file that no longer exists).
pub fn validate_config_cache(
    cache: &ConfigCache,
    expected_name: &str,
    current_mtimes: &Vec<Option<u128>>,
) -> (r: bool)
    ensures
        r == spec_cache_valid(
            cache.resolved_config.qualified_name@,
            cache.dependencies.deep_view(),
            expected_name@,
            current_mtimes@,
        ),
{
    let ghost deps = cache.dependencies.deep_view();
    if !crate::strutil::str_eq(cache.resolved_config.qualified_name.as_str(), expected_name) {
        return false;
    }
    if current_mtimes.len() != cache.dependencies.len() {
        return false;
    }
    let mut i: usize = 0;
    while i < cache.dependencies.len()
        invariant
            i <= cache.dependencies.len(),
            deps == cache.dependencies.deep_view(),
            current_mtimes@.len() == deps.len(),
            forall|j: int|
                0 <= j < i ==> (#[trigger] current_mtimes@[j]) is Some && current_mtimes@[j]->0
                    <= deps[j].1,
        decreases cache.dependencies.len() - i,
    {
        proof {
            assert(deps[i as int] == cache.dependencies@[i as int].deep_view());
        }
        match current_mtimes[i] {
            None => {
                return false;
            },
            Some(t) => {
                if t > cache.dependencies[i].1 {
                    return false;
                }
            },
        }
        i += 1;
    }
    true
}

/// Serves the cached snapshot when the record is present and still valid.
pub fn check_config_cache(
    expected_name: &str,
    cache: Option<&ConfigCache>,
    current_mtimes: &Vec<Option<u128>>,
) -> (r: Option<ResolvedConfig>)
    requires
        match cache {
            Some(c) => c.resolved_config.wf(),
            None => true,
        },
    ensures
        match r {
            Some(rc) => cache matches Some(c) && spec_cache_valid(
                c.resolved_config.qualified_name@,
                c.dependencies.deep_view(),
                expected_name@,
                current_mtimes@,
            ) && rc.deep_view() == c.resolved_config.deep_view() && rc.wf(),
            None => match cache {
                Some(c) => !spec_cache_valid(
                    c.resolved_config.qualified_name@,
                    c.dependencies.deep_view(),
                    expected_name@,
                    current_mtimes@,
                ),
                None => true,
            },
        },
{
    match cache {
        None => None,
        Some(c) => {
            if validate_config_cache(c, expected_name, current_mtimes) {
                Some(c.resolved_config.duplicate())
            } else {
                None
            }
        },
    }
}

/// The loaded configuration recorded for an identity, first match served.
pub open spec fn lookup_file(files: Seq<(u128, LoadedConfigV)>, u: u128) -> Option<LoadedConfigV>
    decreases files.len(),
{
    if files.len() == 0 {
        None
    } else if files[0].0 == u {
        Some(files[0].1)
    } else {
        lookup_file(files.drop_first(), u)
    }
}

/// The chain's configurations, leaf last, each taken from the loaded files.
pub open spec fn chain_configs(
    files: Seq<(u128, LoadedConfigV)>,
    us: Seq<u128>,
) -> Seq<ProjectConfigV> {
    us.map(|i: int, u: u128| lookup_file(files, u)->0.config)
}

/// Finds the position of the loaded configuration for an identity.
fn find_file(files: &Vec<(u128, LoadedConfig)>, u: u128) -> (r: Option<usize>)
    ensures
        match r {
            Some(i) => i < files@.len() && files@[i as int].0 == u && lookup_file(
                files.deep_view(),
                u,
            ) == Some(files@[i as int].1.deep_view()),
            None => lookup_file(files.deep_view(), u) is None,
        },
{
    let ghost fv = files.deep_view();
    let mut i: usize = 0;
    proof {
        assert(fv.skip(0) =~= fv);
    }
    while i < files.len()
        invariant
            i <= files.len(),
            fv == files.deep_view(),
            lookup_file(fv, u) == lookup_file(fv.skip(i as int), u),
        decreases files.len() - i,
    {
        proof {
            assert(fv[i as int] == files@[i as int].deep_view());
            assert(fv.skip(i as int)[0] == fv[i as int]);
        }
        if files[i].0 == u {
            return Some(i);
        }
        proof {
            assert(fv.skip(i as int).drop_first() =~= fv.skip(i + 1));
        }
        i += 1;
    }
    proof {
        assert(fv.skip(files@.len() as int) =~= Seq::<(u128, LoadedConfigV)>::empty());
    }
    None
}

/// Recomputes the resolved configuration of an identity from its ancestor
/// chain and the loaded raw configurations, and assembles the cache record
/// to persist: the snapshot plus each chain member's configuration file and
/// recorded modification time.
pub fn resolve_config_for_uuid(
    target_uuid: u128,
    qualified_name: String,
    index: &GlobalIndex,
    files: &Vec<(u128, LoadedConfig)>,
) -> (r: Result<(ResolvedConfig, ConfigCache), ResolverError>)
    requires
        index.wf(),
        forall|i: int| 0 <= i < files@.len() ==> (#[trigger] files@[i]).1.config.wf(),
    ensures
        ({
            let m = index.projects_map();
            let fv = files.deep_view();
            let cu = chain_uuids(m, target_uuid, index.kv().len() as nat);
            match r {
                Ok((rc, cache)) => cu matches Some(us) && {
                    let cfgs = chain_configs(fv, us);
                    &&& forall|i: int| 0 <= i < us.len() ==> (#[trigger] lookup_file(
                        fv,
                        us[i],
                    )) is Some
                    &&& rc.wf()
                    &&& rc.uuid == target_uuid
                    &&& rc.qualified_name@ == qualified_name@
                    &&& rc.project_root@ == m[target_uuid].path
                    &&& rc.version.deep_view() == merged_version(cfgs)
                    &&& rc.description.deep_view() == merged_description(cfgs)
                    &&& rc.options.at_start.deep_view() == merged_at_start(cfgs)
                    &&& rc.options.at_exit.deep_view() == merged_at_exit(cfgs)
                    &&& rc.options.shell.deep_view() == merged_shell(cfgs)
                    &&& rc.options.open_with@ == merged_open_with(cfgs)
                    &&& rc.vars@ == merged_vars(cfgs)
                    &&& rc.env@ == merged_env(cfgs)
                    &&& rc.commands@ == merged_commands(cfgs)
                    &&& cache.resolved_config.deep_view() == rc.deep_view()
                    &&& cache.dependencies.deep_view().len() == us.len()
                    &&& forall|i: int| 0 <= i < us.len() ==> (#[trigger] cache.dependencies.deep_view()[i]).0
                        == m[us[i]].path + "/.axes/axes.toml"@
                        && cache.dependencies.deep_view()[i].1 == lookup_file(fv, us[i])->0.mtime
                },
                Err(ResolverError::UuidNotFoundInIndex { uuid }) => cu is None
                    && !m.contains_key(uuid) && crate::graph::walk_hits(
                    m,
                    target_uuid,
                    uuid,
                    index.kv().len() as nat,
                ),
                Err(ResolverError::CycleDetected { uuid }) => cu is None && m.contains_key(
                    target_uuid,
                ) && crate::graph::walk_hits(m, target_uuid, uuid, index.kv().len() as nat),
                Err(ResolverError::ConfigFileNotFound { name, path }) => cu matches Some(us)
                    && exists|i: int|
                    0 <= i < us.len() && lookup_file(fv, #[trigger] us[i]) is None && name@
                        == m[us[i]].name && path@ == m[us[i]].path + "/.axes/axes.toml"@,
            }
        }),
        // an unregistered target is reported as exactly that
        !index.projects_map().contains_key(target_uuid) ==> (r matches Err(
            ResolverError::UuidNotFoundInIndex { uuid },
        ) && uuid == target_uuid),
{
    let ghost m = index.projects_map();
    let ghost fv = files.deep_view();
    let chain = match build_inheritance_chain(target_uuid, index) {
        Ok(v) => v,
        Err(e) => {
            return Err(e);
        },
    };
    let ghost us = chain_uuids(m, target_uuid, index.kv().len() as nat)->0;
    let mut configs: Vec<ProjectConfig> = Vec::new();
    let mut dependencies: Vec<(String, u128)> = Vec::new();
    let mut i: usize = 0;
    while i < chain.len()
        invariant
            i <= chain.len(),
            m == index.projects_map(),
            fv == files.deep_view(),
            forall|l: int| 0 <= l < files@.len() ==> (#[trigger] files@[l]).1.config.wf(),
            us == chain_uuids(m, target_uuid, index.kv().len() as nat)->0,
            chain_uuids(m, target_uuid, index.kv().len() as nat) is Some,
            chain@.len() == us.len(),
            forall|l: int|
                0 <= l < us.len() ==> m.contains_key(#[trigger] us[l]) && chain@[l].uuid == us[l]
                    && chain@[l].name@ == m[us[l]].name && chain@[l].project_root@
                    == m[us[l]].path && chain@[l].config_path@ == m[us[l]].path
                    + "/.axes/axes.toml"@,
            configs@.len() == i,
            forall|l: int| 0 <= l < i ==> (#[trigger] lookup_file(fv, us[l])) is Some,
            forall|l: int| 0 <= l < i ==> (#[trigger] configs@[l]).wf(),
            forall|l: int|
                0 <= l < i ==> (#[trigger] configs@[l]).deep_view() == lookup_file(
                    fv,
                    us[l],
                )->0.config,
            dependencies@.len() == i,
            forall|l: int|
                0 <= l < i ==> (#[trigger] dependencies.deep_view()[l]).0 == m[us[l]].path
                    + "/.axes/axes.toml"@ && dependencies.deep_view()[l].1 == lookup_file(
                    fv,
                    us[l],
                )->0.mtime,
        decreases chain.len() - i,
    {
        let node = &chain[i];
        match find_file(files, node.uuid) {
            None => {
                proof {
                    assert(lookup_file(fv, us[i as int]) is None);
                    assert(0 <= i < us.len() && lookup_file(fv, us[i as int]) is None
                        && node.name@ == m[us[i as int]].name && node.config_path@
                        == m[us[i as int]].path + "/.axes/axes.toml"@);
                }
                return Err(ResolverError::ConfigFileNotFound {
                    name: node.name.deep_clone(),
                    path: node.config_path.deep_clone(),
                });
            },
            Some(pos) => {
                let loaded = &files[pos].1;
                let ghost deps_before = dependencies.deep_view();
                let ghost configs_before = configs@;
                configs.push(loaded.config.duplicate());
                dependencies.push((node.config_path.deep_clone(), loaded.mtime));
                proof {
                    assert forall|l: int| 0 <= l < dependencies.deep_view().len() implies (
                    #[trigger] dependencies.deep_view()[l]).0 == m[us[l]].path
                        + "/.axes/axes.toml"@ && dependencies.deep_view()[l].1 == lookup_file(
                        fv,
                        us[l],
                    )->0.mtime by {
                        if l < deps_before.len() {
                            assert(dependencies@[l] == dependencies@.subrange(
                                0,
                                dependencies@.len() - 1,
                            )[l]);
                            assert(dependencies.deep_view()[l] == deps_before[l]);
                        }
                    }
                }
                i += 1;
            },
        }
    }
    let ghost cfgs = chain_configs(fv, us);
    proof {
        assert(configs.deep_view() =~= cfgs);
    }
    let leaf_root = chain[chain.len() - 1].project_root.deep_clone();
    proof {
        assert(us.last() == target_uuid) by {
            lemma_chain_last(m, target_uuid, index.kv().len() as nat);
        }
    }
    let mut resolved = merge_chain_into_config(configs);
    resolved.uuid = target_uuid;
    resolved.qualified_name = qualified_name;
    resolved.project_root = leaf_root;
    let cache = ConfigCache { resolved_config: resolved.duplicate(), dependencies };
    Ok((resolved, cache))
}

/// The last member of a rooted chain is the leaf it was built for.
proof fn lemma_chain_last(m: Map<u128, IndexEntryV>, x: u128, fuel: nat)
    requires
        chain_uuids(m, x, fuel) is Some,
    ensures
        chain_uuids(m, x, fuel)->0.len() > 0,
        chain_uuids(m, x, fuel)->0.last() == x,
{
}

/// Law: a cache written by a resolution validates against its own recorded
/// state, so a second resolution without filesystem changes serves the same
/// snapshot and leaves the recorded dependency set unchanged.
pub proof fn lemma_cache_roundtrip(
    cached_name: Seq<char>,
    deps: Seq<(Seq<char>, u128)>,
    expected_name: Seq<char>,
    current_mtimes: Seq<Option<u128>>,
)
    requires
        cached_name == expected_name,
        current_mtimes.len() == deps.len(),
        forall|i: int| 0 <= i < deps.len() ==> (#[trigger] current_mtimes[i]) == Some(deps[i].1),
    ensures
        spec_cache_valid(cached_name, deps, expected_name, current_mtimes),
{
}

/// Law: touching any recorded dependency — a newer modification time or a
/// missing file — invalidates the cache, so the next resolution recomputes.
pub proof fn lemma_modified_dependency_invalidates(
    cached_name: Seq<char>,
    deps: Seq<(Seq<char>, u128)>,
    expected_name: Seq<char>,
    current_mtimes: Seq<Option<u128>>,
    i: int,
)
    requires
        current_mtimes.len() == deps.len(),
        0 <= i < deps.len(),
        current_mtimes[i] is None || current_mtimes[i]->0 > deps[i].1,
    ensures
        !spec_cache_valid(cached_name, deps, expected_name, current_mtimes),
{
}

/// Law: a cache recorded under a different qualified name — after a rename
/// or a re-link — is never served, whatever the file times say.
pub proof fn lemma_renamed_project_invalidates(
    cached_name: Seq<char>,
    deps: Seq<(Seq<char>, u128)>,
    expected_name: Seq<char>,
    current_mtimes: Seq<Option<u128>>,
)
    requires
        cached_name != expected_name,
    ensures
        !spec_cache_valid(cached_name, deps, expected_name, current_mtimes),
{
}

} // verus!
