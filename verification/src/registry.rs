//! The flat, name-keyed project registry that predates the identity graph:
//! a simple name-to-path index with a last-used marker, and the merge of a
//! project's configuration over the global one.

use vstd::prelude::*;

use crate::smap::{DeepClone, SMap};
use crate::strutil::str_eq;

verus! {

/// A command of the flat registry's configuration format.
pub enum Command {
    Simple(String),
    Extended { run: String, desc: Option<String> },
}

/// The ghost mirror of the flat registry's [`Command`].
#[verifier::ext_equal]
pub ghost enum FlatCommandV {
    Simple(Seq<char>),
    Extended { run: Seq<char>, desc: Option<Seq<char>> },
}

impl DeepView for Command {
    type V = FlatCommandV;

    open spec fn deep_view(&self) -> FlatCommandV {
        match self {
            Command::Simple(s) => FlatCommandV::Simple(s@),
            Command::Extended { run, desc } => FlatCommandV::Extended {
                run: run@,
                desc: desc.deep_view(),
            },
        }
    }
}

impl DeepClone for Command {
    fn deep_clone(&self) -> (r: Self)
        ensures
            r.deep_view() == self.deep_view(),
    {
        match self {
            Command::Simple(s) => Command::Simple(s.deep_clone()),
            Command::Extended { run, desc } => Command::Extended {
                run: run.deep_clone(),
                desc: desc.deep_clone(),
            },
        }
    }
}

/// A project of the flat registry.
pub struct Project {
    pub name: String,
    pub description: Option<String>,
    pub version: Option<String>,
    pub commands: SMap<Command>,
    pub options: SMap<String>,
    pub vars: SMap<String>,
}

impl Project {
    /// Whether the string maps inside hold distinct keys.
    pub open spec fn wf(&self) -> bool {
        self.commands.wf() && self.options.wf() && self.vars.wf()
    }
}

/// The flat registry: project names mapped to their roots, plus the project
/// used most recently.
pub struct Index {
    pub projects: SMap<String>,
    pub last_used: Option<String>,
}

/// Records the project used most recently.
pub fn update_last_used(index: &mut Index, project_name: &str)
    ensures
        final(index).projects == old(index).projects,
        final(index).last_used matches Some(n) && n@ == project_name@,
{
    index.last_used = Some(project_name.to_owned());
}

/// What validating a registered project produced: the loaded project and its
/// root, or a cancellation with an explanatory message.
pub enum ValidatedProject {
    Success(Box<Project>, String),
    Cancelled(String),
}

/// The flat registry's merged configuration view.
pub struct ResolvedConfig {
    pub project_name: String,
    pub project_root: String,
    pub version: Option<String>,
    pub description: Option<String>,
    pub commands: SMap<Command>,
    pub options: SMap<String>,
    pub vars: SMap<String>,
    pub original_project: Project,
}

/// Merges a project's configuration over the global one: the project's
/// entries win key by key, and its command table replaces the global one
/// entirely.
pub fn resolve_config(project_config: Project, project_root: String, global_config: Project) -> (r:
    ResolvedConfig)
    requires
        project_config.wf(),
        global_config.wf(),
    ensures
        r.project_name@ == project_config.name@,
        r.project_root@ == project_root@,
        r.version.deep_view() == project_config.version.deep_view(),
        r.description.deep_view() == project_config.description.deep_view(),
        r.commands@ == project_config.commands@,
        r.options@ == global_config.options@.union_prefer_right(project_config.options@),
        r.vars@ == global_config.vars@.union_prefer_right(project_config.vars@),
        r.original_project == project_config,
{
    let mut resolved_vars = global_config.vars.duplicate();
    resolved_vars.extend(&project_config.vars);
    let mut resolved_options = global_config.options.duplicate();
    resolved_options.extend(&project_config.options);
    let resolved_commands = project_config.commands.duplicate();
    ResolvedConfig {
        project_name: project_config.name.deep_clone(),
        project_root,
        version: project_config.version.deep_clone(),
        description: project_config.description.deep_clone(),
        commands: resolved_commands,
        options: resolved_options,
        vars: resolved_vars,
        original_project: project_config,
    }
}

/// Looks a project's root up by name.
pub fn project_root_of(index: &Index, project_name: &str) -> (r: Option<String>)
    requires
        index.projects.wf(),
    ensures
        match r {
            Some(p) => index.projects@.contains_key(project_name@) && p@
                == index.projects@[project_name@],
            None => !index.projects@.contains_key(project_name@),
        },
{
    match index.projects.get(project_name) {
        Some(p) => Some(p.deep_clone()),
        None => None,
    }
}

/// Whether the stored last-used marker names the given project.
pub fn is_last_used(index: &Index, project_name: &str) -> (r: bool)
    ensures
        r == match index.last_used {
            Some(n) => n@ == project_name@,
            None => false,
        },
{
    match &index.last_used {
        Some(n) => str_eq(n.as_str(), project_name),
        None => false,
    }
}

} // verus!
