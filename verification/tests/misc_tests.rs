//! Tests of the smaller verified pieces: interpolation, command planning,
//! dispatch disambiguation, shell startup, templates, paths, defaults and
//! the flat registry.

use axes::cli::determine_context_and_action;
use axes::executor::{is_windows_shell_builtin, plan_command, ExecutionError};
use axes::interpolator::Interpolator;
use axes::models::{
    Command, OptionsConfig, Platform, ProjectConfig, ResolvedConfig, Runnable,
};
use axes::paths::{config_cache_path, get_index_path, project_config_path, project_ref_path};
use axes::registry;
use axes::shell::shell_init_command;
use axes::smap::SMap;
use axes::templates::{apply_template, render_template_content, template_target_name, TemplateEntry};

fn demo_resolved() -> ResolvedConfig {
    let mut vars: SMap<String> = SMap::new();
    vars.insert("greeting".to_owned(), "hola {name}".to_owned());
    ResolvedConfig {
        uuid: 7,
        qualified_name: "api/v1".to_owned(),
        project_root: "/srv/api/v1".to_owned(),
        version: Some("1.2.3".to_owned()),
        description: Some("demo".to_owned()),
        commands: SMap::new(),
        options: OptionsConfig::new(),
        vars,
        env: SMap::new(),
    }
}

#[test]
fn interpolation_replaces_reserved_tokens() {
    let config = demo_resolved();
    let params: Vec<String> = vec!["--fast".to_owned(), "-v".to_owned()];
    let it = Interpolator::new(&config, &params);
    assert_eq!(
        it.interpolate("cd {root} && echo {name} {version}"),
        "cd /srv/api/v1 && echo api/v1 1.2.3"
    );
    assert_eq!(it.interpolate("say {greeting}!"), "say hola api/v1!");
    assert_eq!(it.interpolate("run {params}"), "run --fast -v");
    assert_eq!(it.interpolate("plain"), "plain");
}

#[test]
fn interpolation_of_missing_scalars_uses_empty_strings() {
    let mut config = demo_resolved();
    config.version = None;
    config.description = None;
    let params: Vec<String> = Vec::new();
    let it = Interpolator::new(&config, &params);
    assert_eq!(it.interpolate("v={version};d={description};p={params}"), "v=;d=;p=");
}

#[test]
fn command_planning_splits_shell_words() {
    let plan = plan_command("git commit -m 'two words'", Platform::Linux).unwrap();
    assert_eq!(plan.program, "git");
    assert_eq!(plan.args, vec!["commit".to_owned(), "-m".to_owned(), "two words".to_owned()]);
    assert!(!plan.use_cmd_wrapper);
}

#[test]
fn command_planning_wraps_windows_builtins() {
    let plan = plan_command("START notepad.exe", Platform::Windows).unwrap();
    assert!(plan.use_cmd_wrapper);
    let plan = plan_command("git status", Platform::Windows).unwrap();
    assert!(!plan.use_cmd_wrapper);
    let plan = plan_command("start x", Platform::Linux).unwrap();
    assert!(!plan.use_cmd_wrapper);
}

#[test]
fn command_planning_rejects_bad_input() {
    assert!(matches!(
        plan_command("", Platform::Linux),
        Err(ExecutionError::EmptyCommand)
    ));
    assert!(matches!(
        plan_command("   ", Platform::Linux),
        Err(ExecutionError::EmptyCommand)
    ));
    assert!(matches!(
        plan_command("echo 'unterminated", Platform::Linux),
        Err(ExecutionError::CommandParse(l)) if l == "echo 'unterminated"
    ));
}

#[test]
fn builtin_check_ignores_ascii_case() {
    assert!(is_windows_shell_builtin("start"));
    assert!(is_windows_shell_builtin("START"));
    assert!(is_windows_shell_builtin("MkDir"));
    assert!(!is_windows_shell_builtin("git"));
    assert!(!is_windows_shell_builtin(""));
}

fn actions() -> Vec<String> {
    ["tree", "info", "open", "rename", "link", "unregister", "delete", "init", "register", "run",
        "start", "alias"]
        .iter()
        .map(|s| s.to_string())
        .collect()
}

#[test]
fn dispatcher_disambiguates_context_and_action() {
    let acts = actions();
    let (ctx, act, rest) = determine_context_and_action("info", Some("my-app/api"), &acts);
    assert_eq!((ctx.as_str(), act.as_str()), ("my-app/api", "info"));
    assert!(rest.is_empty());
    let (ctx, act, _) = determine_context_and_action("my-app/api", Some("info"), &acts);
    assert_eq!((ctx.as_str(), act.as_str()), ("my-app/api", "info"));
    let (ctx, act, rest) = determine_context_and_action("my-app", Some("deploy"), &acts);
    assert_eq!((ctx.as_str(), act.as_str()), ("my-app", "run"));
    assert_eq!(rest, vec!["deploy".to_owned()]);
    let (ctx, act, _) = determine_context_and_action("tree", None, &acts);
    assert_eq!((ctx.as_str(), act.as_str()), ("global", "tree"));
    let (ctx, act, _) = determine_context_and_action("my-app", None, &acts);
    assert_eq!((ctx.as_str(), act.as_str()), ("my-app", "start"));
}

#[test]
fn shell_startup_command_includes_script_and_welcome() {
    let with_script = shell_init_command("api", Some("setup.bat"));
    assert_eq!(
        with_script,
        "call setup.bat && echo. && echo --- Sesion de Axes para 'api' iniciada. --- && echo Para salir, escribe 'exit'."
    );
    let bare = shell_init_command("api", None);
    assert!(bare.starts_with("echo. && echo --- Sesion de Axes para 'api'"));
}

#[test]
fn template_names_and_contents_are_rendered() {
    assert_eq!(template_target_name("axes.toml.template").as_deref(), Some("axes.toml"));
    assert_eq!(template_target_name(".template").as_deref(), Some(""));
    assert!(template_target_name("axes.toml").is_none());
    assert!(template_target_name("short").is_none());
    assert_eq!(
        render_template_content("# {{name}}\nhello {{name}}", "demo"),
        "# demo\nhello demo"
    );
}

#[test]
fn metadata_paths_are_joined_under_the_project_root() {
    assert_eq!(project_config_path("/srv/api"), "/srv/api/.axes/axes.toml");
    assert_eq!(config_cache_path("/srv/api"), "/srv/api/.axes/config.cache.bin");
    assert_eq!(project_ref_path("/srv/api"), "/srv/api/.axes/project_ref.bin");
    assert_eq!(get_index_path("/home/u/.config/axes"), "/home/u/.config/axes/index.toml");
}

#[test]
fn fresh_project_config_has_platform_defaults() {
    let cfg = ProjectConfig::new(Platform::Linux);
    assert_eq!(cfg.version.as_deref(), Some("0.1.0"));
    assert_eq!(cfg.description.as_deref(), Some("A new project managed by axes."));
    assert!(cfg.commands.is_empty());
    assert_eq!(cfg.options.open_with.get("default").map(|s| s.as_str()), Some("xdg-open ."));
    assert_eq!(cfg.options.open_with.get("vsc").map(|s| s.as_str()), Some("code ."));
    let win = ProjectConfig::new(Platform::Windows);
    assert_eq!(win.options.open_with.get("default").map(|s| s.as_str()), Some("explorer ."));
    let mac = ProjectConfig::new(Platform::MacOs);
    assert_eq!(mac.options.open_with.get("finder").map(|s| s.as_str()), Some("open ."));
}

#[test]
fn platform_commands_pick_the_matching_entry_or_default() {
    let cmd = Command::Platform(axes::models::PlatformCommand {
        default: Some(Runnable::Single("make".to_owned())),
        windows: Some(Runnable::Single("nmake".to_owned())),
        linux: None,
        macos: None,
        desc: None,
    });
    assert!(matches!(
        cmd.runnable_for(Platform::Windows),
        Some(Runnable::Single(s)) if s == "nmake"
    ));
    assert!(matches!(
        cmd.runnable_for(Platform::Linux),
        Some(Runnable::Single(s)) if s == "make"
    ));
    let bare = Command::Platform(axes::models::PlatformCommand {
        default: None,
        windows: None,
        linux: None,
        macos: None,
        desc: None,
    });
    assert!(bare.runnable_for(Platform::Linux).is_none());
    assert!(matches!(
        Command::Simple("ls".to_owned()).runnable_for(Platform::Other),
        Some(Runnable::Single(s)) if s == "ls"
    ));
}

#[test]
fn string_maps_overwrite_equal_keys() {
    let mut m: SMap<String> = SMap::new();
    assert!(m.is_empty());
    m.insert("a".to_owned(), "1".to_owned());
    m.insert("a".to_owned(), "2".to_owned());
    m.insert("b".to_owned(), "3".to_owned());
    assert_eq!(m.get("a").map(|s| s.as_str()), Some("2"));
    assert_eq!(m.get("b").map(|s| s.as_str()), Some("3"));
    assert!(m.get("c").is_none());
    assert!(!m.is_empty());
    let mut other: SMap<String> = SMap::new();
    other.insert("a".to_owned(), "9".to_owned());
    m.extend(&other);
    assert_eq!(m.get("a").map(|s| s.as_str()), Some("9"));
}

#[test]
fn flat_registry_merges_project_over_global() {
    let mut global_vars: SMap<String> = SMap::new();
    global_vars.insert("editor".to_owned(), "vi".to_owned());
    global_vars.insert("shellx".to_owned(), "bash".to_owned());
    let global = registry::Project {
        name: String::new(),
        description: None,
        version: None,
        commands: SMap::new(),
        options: SMap::new(),
        vars: global_vars,
    };
    let mut project_vars: SMap<String> = SMap::new();
    project_vars.insert("editor".to_owned(), "code".to_owned());
    let mut commands: SMap<registry::Command> = SMap::new();
    commands.insert("hi".to_owned(), registry::Command::Simple("echo hi".to_owned()));
    let project = registry::Project {
        name: "demo".to_owned(),
        description: Some("d".to_owned()),
        version: Some("0.1".to_owned()),
        commands,
        options: SMap::new(),
        vars: project_vars,
    };
    let rc = registry::resolve_config(project, "/srv/demo".to_owned(), global);
    assert_eq!(rc.project_name, "demo");
    assert_eq!(rc.vars.get("editor").map(|s| s.as_str()), Some("code"));
    assert_eq!(rc.vars.get("shellx").map(|s| s.as_str()), Some("bash"));
    assert!(rc.commands.get("hi").is_some());
}

#[test]
fn flat_registry_tracks_last_used() {
    let mut index = registry::Index { projects: SMap::new(), last_used: None };
    index.projects.insert("demo".to_owned(), "/srv/demo".to_owned());
    registry::update_last_used(&mut index, "demo");
    assert!(registry::is_last_used(&index, "demo"));
    assert!(!registry::is_last_used(&index, "other"));
    assert_eq!(
        registry::project_root_of(&index, "demo").as_deref(),
        Some("/srv/demo")
    );
    assert!(registry::project_root_of(&index, "missing").is_none());
}

#[test]
fn applying_a_template_renders_marked_files_and_copies_the_rest() {
    let entries = vec![
        TemplateEntry {
            name: "axes.toml.template".to_owned(),
            contents: "name = \"{{name}}\"".to_owned(),
        },
        TemplateEntry { name: "logo.png".to_owned(), contents: "binary".to_owned() },
    ];
    let out = apply_template(&entries, "demo");
    assert_eq!(out.len(), 2);
    assert_eq!(out[0], ("axes.toml".to_owned(), "name = \"demo\"".to_owned()));
    assert_eq!(out[1], ("logo.png".to_owned(), "binary".to_owned()));
}
