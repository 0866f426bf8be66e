//! Tests of the configuration-resolution engine: chain building, merging,
//! and cache validation.

use axes::config_resolver::{
    build_inheritance_chain, check_config_cache, merge_chain_into_config, resolve_config_for_uuid,
    validate_config_cache, LoadedConfig, ResolverError,
};
use axes::graph::GlobalIndex;
use axes::index_manager::{add_project_to_index, ensure_global_project, GLOBAL_PROJECT_UUID};
use axes::models::{Command, ConfigCache, OptionsConfig, ProjectConfig};
use axes::smap::SMap;

fn empty_config() -> ProjectConfig {
    ProjectConfig {
        version: None,
        description: None,
        commands: SMap::new(),
        options: OptionsConfig::new(),
        vars: SMap::new(),
        env: SMap::new(),
    }
}

fn demo_graph() -> (GlobalIndex, u128, u128) {
    let mut index = GlobalIndex::new();
    ensure_global_project(&mut index, "/cfg");
    let api = add_project_to_index(&mut index, "api".to_owned(), "/srv/api".to_owned(), None)
        .unwrap();
    let v1 = add_project_to_index(&mut index, "v1".to_owned(), "/srv/api/v1".to_owned(), Some(api))
        .unwrap();
    (index, api, v1)
}

#[test]
fn chain_runs_root_first() {
    let (index, api, v1) = demo_graph();
    let chain = build_inheritance_chain(v1, &index).unwrap();
    assert_eq!(chain.len(), 3);
    assert_eq!(chain[0].uuid, GLOBAL_PROJECT_UUID);
    assert_eq!(chain[1].uuid, api);
    assert_eq!(chain[2].uuid, v1);
    assert_eq!(chain[2].config_path, "/srv/api/v1/.axes/axes.toml");
    assert!(matches!(
        build_inheritance_chain(999, &index),
        Err(ResolverError::UuidNotFoundInIndex { uuid: 999 })
    ));
}

#[test]
fn merge_takes_nearest_defined_scalars_and_unions_tables() {
    let mut root_cfg = empty_config();
    root_cfg.version = Some("1.0".to_owned());
    root_cfg.description = Some("root".to_owned());
    root_cfg.vars.insert("Y".to_owned(), "1".to_owned());
    root_cfg.env.insert("PATHX".to_owned(), "/root".to_owned());
    root_cfg.options.at_start = Some("hello".to_owned());

    let mut child_cfg = empty_config();
    child_cfg.description = Some("child".to_owned());
    child_cfg.vars.insert("X".to_owned(), "2".to_owned());
    child_cfg.vars.insert("Y".to_owned(), "overridden".to_owned());

    let merged = merge_chain_into_config(vec![root_cfg, child_cfg]);
    assert_eq!(merged.version.as_deref(), Some("1.0"));
    assert_eq!(merged.description.as_deref(), Some("child"));
    assert_eq!(merged.options.at_start.as_deref(), Some("hello"));
    assert_eq!(merged.vars.get("X").map(|s| s.as_str()), Some("2"));
    assert_eq!(merged.vars.get("Y").map(|s| s.as_str()), Some("overridden"));
    assert_eq!(merged.env.get("PATHX").map(|s| s.as_str()), Some("/root"));
}

#[test]
fn commands_are_taken_whole_from_the_most_specific_definer() {
    let mut root_cfg = empty_config();
    root_cfg.commands.insert("build".to_owned(), Command::Simple("make".to_owned()));
    root_cfg.commands.insert("clean".to_owned(), Command::Simple("make clean".to_owned()));

    let mut mid_cfg = empty_config();
    mid_cfg.commands.insert("test".to_owned(), Command::Simple("cargo test".to_owned()));

    let leaf_cfg = empty_config();  // defines none

    let merged = merge_chain_into_config(vec![root_cfg, mid_cfg, leaf_cfg]);
    // the nearest ancestor that defines any commands wins entirely
    assert!(merged.commands.get("test").is_some());
    assert!(merged.commands.get("build").is_none());
    assert!(merged.commands.get("clean").is_none());
}

fn loaded(files: Vec<(u128, ProjectConfig)>) -> Vec<(u128, LoadedConfig)> {
    files
        .into_iter()
        .enumerate()
        .map(|(i, (u, config))| (u, LoadedConfig { mtime: 100 + i as u128, config }))
        .collect()
}

#[test]
fn resolution_scenario_merges_ancestors() {
    // root -> api (vars {Y: "1"}, commands) -> v1 (vars {X: "2"}, no commands)
    let (index, api, v1) = demo_graph();
    let root_cfg = empty_config();
    let mut api_cfg = empty_config();
    api_cfg.vars.insert("Y".to_owned(), "1".to_owned());
    api_cfg.commands.insert("build".to_owned(), Command::Simple("make".to_owned()));
    let mut v1_cfg = empty_config();
    v1_cfg.vars.insert("X".to_owned(), "2".to_owned());

    let files = loaded(vec![(GLOBAL_PROJECT_UUID, root_cfg), (api, api_cfg), (v1, v1_cfg)]);
    let (rc, cache) = resolve_config_for_uuid(v1, "api/v1".to_owned(), &index, &files).unwrap();
    assert_eq!(rc.uuid, v1);
    assert_eq!(rc.qualified_name, "api/v1");
    assert_eq!(rc.project_root, "/srv/api/v1");
    assert_eq!(rc.vars.get("X").map(|s| s.as_str()), Some("2"));
    assert_eq!(rc.vars.get("Y").map(|s| s.as_str()), Some("1"));
    // commands come whole from `api`, the nearest definer
    assert!(matches!(rc.commands.get("build"), Some(Command::Simple(s)) if s == "make"));
    // the cache records one dependency per chain member
    assert_eq!(cache.dependencies.len(), 3);
    assert_eq!(cache.dependencies[2].0, "/srv/api/v1/.axes/axes.toml");
    assert_eq!(cache.resolved_config.qualified_name, "api/v1");
}

#[test]
fn resolution_fails_on_missing_ancestor_config() {
    let (index, api, v1) = demo_graph();
    // the api config file is missing from the loaded set
    let files = loaded(vec![(GLOBAL_PROJECT_UUID, empty_config()), (v1, empty_config())]);
    let r = resolve_config_for_uuid(v1, "api/v1".to_owned(), &index, &files);
    match r {
        Err(ResolverError::ConfigFileNotFound { name, path }) => {
            assert_eq!(name, "api");
            assert_eq!(path, "/srv/api/.axes/axes.toml");
        }
        other => panic!("unexpected outcome: {:?}", other.is_ok()),
    }
    let _ = api;
}

fn demo_cache() -> ConfigCache {
    let (index, api, v1) = demo_graph();
    let files = loaded(vec![
        (GLOBAL_PROJECT_UUID, empty_config()),
        (api, empty_config()),
        (v1, empty_config()),
    ]);
    let (_, cache) = resolve_config_for_uuid(v1, "api/v1".to_owned(), &index, &files).unwrap();
    cache
}

#[test]
fn unchanged_dependencies_serve_the_cache() {
    let cache = demo_cache();
    let mtimes: Vec<Option<u128>> = cache.dependencies.iter().map(|d| Some(d.1)).collect();
    assert!(validate_config_cache(&cache, "api/v1", &mtimes));
    let served = check_config_cache("api/v1", Some(&cache), &mtimes).unwrap();
    assert_eq!(served.qualified_name, "api/v1");
    assert_eq!(served.uuid, cache.resolved_config.uuid);
}

#[test]
fn touched_dependency_invalidates_the_cache() {
    let cache = demo_cache();
    // a newer modification time on any ancestor file forces a recompute
    let mut mtimes: Vec<Option<u128>> = cache.dependencies.iter().map(|d| Some(d.1)).collect();
    mtimes[0] = Some(cache.dependencies[0].1 + 1);
    assert!(!validate_config_cache(&cache, "api/v1", &mtimes));
    assert!(check_config_cache("api/v1", Some(&cache), &mtimes).is_none());
    // a missing dependency file does too
    let mut gone: Vec<Option<u128>> = cache.dependencies.iter().map(|d| Some(d.1)).collect();
    gone[1] = None;
    assert!(!validate_config_cache(&cache, "api/v1", &gone));
}

#[test]
fn renamed_project_invalidates_the_cache() {
    let cache = demo_cache();
    let mtimes: Vec<Option<u128>> = cache.dependencies.iter().map(|d| Some(d.1)).collect();
    // after a rename the requested qualified name no longer matches
    assert!(!validate_config_cache(&cache, "api/v2", &mtimes));
    assert!(check_config_cache("api/v2", Some(&cache), &mtimes).is_none());
}

#[test]
fn resolving_twice_gives_identical_content() {
    let (index, api, v1) = demo_graph();
    let mut api_cfg = empty_config();
    api_cfg.vars.insert("Y".to_owned(), "1".to_owned());
    let files = loaded(vec![
        (GLOBAL_PROJECT_UUID, empty_config()),
        (api, api_cfg),
        (v1, empty_config()),
    ]);
    let (rc1, cache1) = resolve_config_for_uuid(v1, "api/v1".to_owned(), &index, &files).unwrap();
    let (rc2, cache2) = resolve_config_for_uuid(v1, "api/v1".to_owned(), &index, &files).unwrap();
    assert_eq!(rc1.qualified_name, rc2.qualified_name);
    assert_eq!(
        rc1.vars.get("Y").map(|s| s.as_str()),
        rc2.vars.get("Y").map(|s| s.as_str())
    );
    let deps1: Vec<(String, u128)> = cache1.dependencies.clone();
    let deps2: Vec<(String, u128)> = cache2.dependencies.clone();
    assert_eq!(deps1, deps2);
    // and the first cache validates against its own recorded state
    let mtimes: Vec<Option<u128>> = cache1.dependencies.iter().map(|d| Some(d.1)).collect();
    assert!(validate_config_cache(&cache1, "api/v1", &mtimes));
}

#[test]
fn cyclic_chains_are_reported_instead_of_hanging() {
    let entries = vec![
        (1u128, axes::models::IndexEntry {
            name: "a".to_owned(),
            path: "/a".to_owned(),
            parent: Some(2),
        }),
        (2u128, axes::models::IndexEntry {
            name: "b".to_owned(),
            path: "/b".to_owned(),
            parent: Some(1),
        }),
    ];
    let index = axes::graph::GlobalIndex::from_entries(entries, None);
    assert!(matches!(
        build_inheritance_chain(1, &index),
        Err(ResolverError::CycleDetected { .. })
    ));
}
