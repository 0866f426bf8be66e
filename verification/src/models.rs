//! The data model: command shapes, per-project configuration, the global
//! project graph and the small persisted records that surround it.
//!
//! Every executable type has a ghost mirror (its deep view) so that contracts
//! speak about mathematical sequences and maps instead of heap values.

use vstd::prelude::*;

use crate::smap::{DeepClone, SMap};

verus! {

/// The platform a command is selected for.
#[derive(Clone, Copy, PartialEq, Eq, Structural, Debug)]
pub enum Platform {
    Windows,
    Linux,
    MacOs,
    Other,
}

/// A runnable command value: one command line or an ordered batch of them.
#[derive(Debug)]
pub enum Runnable {
    Sequence(Vec<String>),
    Single(String),
}

/// The ghost mirror of [`Runnable`].
#[verifier::ext_equal]
pub ghost enum RunnableV {
    Sequence(Seq<Seq<char>>),
    Single(Seq<char>),
}

impl DeepView for Runnable {
    type V = RunnableV;

    open spec fn deep_view(&self) -> RunnableV {
        match self {
            Runnable::Sequence(v) => RunnableV::Sequence(v.deep_view()),
            Runnable::Single(s) => RunnableV::Single(s@),
        }
    }
}

impl DeepClone for Runnable {
    fn deep_clone(&self) -> (r: Self)
        ensures
            r.deep_view() == self.deep_view(),
    {
        match self {
            Runnable::Sequence(v) => Runnable::Sequence(v.deep_clone()),
            Runnable::Single(s) => Runnable::Single(s.deep_clone()),
        }
    }
}

/// A command with a run value and an optional description.
#[derive(Debug)]
pub struct ExtendedCommand {
    pub run: Runnable,
    pub desc: Option<String>,
}

/// The ghost mirror of [`ExtendedCommand`].
#[verifier::ext_equal]
pub ghost struct ExtendedCommandV {
    pub run: RunnableV,
    pub desc: Option<Seq<char>>,
}

impl DeepView for ExtendedCommand {
    type V = ExtendedCommandV;

    open spec fn deep_view(&self) -> ExtendedCommandV {
        ExtendedCommandV { run: self.run.deep_view(), desc: self.desc.deep_view() }
    }
}

impl DeepClone for ExtendedCommand {
    fn deep_clone(&self) -> (r: Self)
        ensures
            r.deep_view() == self.deep_view(),
    {
        ExtendedCommand { run: self.run.deep_clone(), desc: self.desc.deep_clone() }
    }
}

/// A command with per-platform run values and an optional default.
#[derive(Debug)]
pub struct PlatformCommand {
    pub default: Option<Runnable>,
    pub windows: Option<Runnable>,
    pub linux: Option<Runnable>,
    pub macos: Option<Runnable>,
    pub desc: Option<String>,
}

/// The ghost mirror of [`PlatformCommand`].
#[verifier::ext_equal]
pub ghost struct PlatformCommandV {
    pub default: Option<RunnableV>,
    pub windows: Option<RunnableV>,
    pub linux: Option<RunnableV>,
    pub macos: Option<RunnableV>,
    pub desc: Option<Seq<char>>,
}

impl DeepView for PlatformCommand {
    type V = PlatformCommandV;

    open spec fn deep_view(&self) -> PlatformCommandV {
        PlatformCommandV {
            default: self.default.deep_view(),
            windows: self.windows.deep_view(),
            linux: self.linux.deep_view(),
            macos: self.macos.deep_view(),
            desc: self.desc.deep_view(),
        }
    }
}

impl DeepClone for PlatformCommand {
    fn deep_clone(&self) -> (r: Self)
        ensures
            r.deep_view() == self.deep_view(),
    {
        PlatformCommand {
            default: self.default.deep_clone(),
            windows: self.windows.deep_clone(),
            linux: self.linux.deep_clone(),
            macos: self.macos.deep_clone(),
            desc: self.desc.deep_clone(),
        }
    }
}

/// A command definition as written in a project's raw configuration.
#[derive(Debug)]
pub enum Command {
    Sequence(Vec<String>),
    Simple(String),
    Extended(ExtendedCommand),
    Platform(PlatformCommand),
}

/// The ghost mirror of [`Command`].
#[verifier::ext_equal]
pub ghost enum CommandV {
    Sequence(Seq<Seq<char>>),
    Simple(Seq<char>),
    Extended(ExtendedCommandV),
    Platform(PlatformCommandV),
}

impl DeepView for Command {
    type V = CommandV;

    open spec fn deep_view(&self) -> CommandV {
        match self {
            Command::Sequence(v) => CommandV::Sequence(v.deep_view()),
            Command::Simple(s) => CommandV::Simple(s@),
            Command::Extended(e) => CommandV::Extended(e.deep_view()),
            Command::Platform(p) => CommandV::Platform(p.deep_view()),
        }
    }
}

impl DeepClone for Command {
    fn deep_clone(&self) -> (r: Self)
        ensures
            r.deep_view() == self.deep_view(),
    {
        match self {
            Command::Sequence(v) => Command::Sequence(v.deep_clone()),
            Command::Simple(s) => Command::Simple(s.deep_clone()),
            Command::Extended(e) => Command::Extended(e.deep_clone()),
            Command::Platform(p) => Command::Platform(p.deep_clone()),
        }
    }
}

/// What a platform command selects on a given platform: the platform's own
/// entry if present, else the default.
pub open spec fn spec_platform_choice(p: PlatformCommandV, platform: Platform) -> Option<
    RunnableV,
> {
    let specific = match platform {
        Platform::Windows => p.windows,
        Platform::Linux => p.linux,
        Platform::MacOs => p.macos,
        Platform::Other => None,
    };
    if specific is Some {
        specific
    } else {
        p.default
    }
}

/// The runnable a command denotes on a platform; `None` only for a
/// per-platform command with neither a matching entry nor a default.
pub open spec fn spec_runnable_for(c: CommandV, platform: Platform) -> Option<RunnableV> {
    match c {
        CommandV::Sequence(v) => Some(RunnableV::Sequence(v)),
        CommandV::Simple(s) => Some(RunnableV::Single(s)),
        CommandV::Extended(e) => Some(e.run),
        CommandV::Platform(p) => spec_platform_choice(p, platform),
    }
}

impl Command {
    /// Resolves the command to a concrete runnable for the given platform.
    pub fn runnable_for(&self, platform: Platform) -> (r: Option<Runnable>)
        ensures
            r.deep_view() == spec_runnable_for(self.deep_view(), platform),
    {
        match self {
            Command::Sequence(v) => Some(Runnable::Sequence(v.deep_clone())),
            Command::Simple(s) => Some(Runnable::Single(s.deep_clone())),
            Command::Extended(e) => Some(e.run.deep_clone()),
            Command::Platform(p) => {
                let specific: Option<&Runnable> = match platform {
                    Platform::Windows => p.windows.as_ref(),
                    Platform::Linux => p.linux.as_ref(),
                    Platform::MacOs => p.macos.as_ref(),
                    Platform::Other => None,
                };
                match specific {
                    Some(r) => Some(r.deep_clone()),
                    None => match &p.default {
                        Some(d) => Some(d.deep_clone()),
                        None => None,
                    },
                }
            },
        }
    }
}

/// The option block of a raw or resolved configuration.
pub struct OptionsConfig {
    pub at_start: Option<String>,
    pub at_exit: Option<String>,
    pub shell: Option<String>,
    pub open_with: SMap<String>,
}

/// The ghost mirror of [`OptionsConfig`].
#[verifier::ext_equal]
pub ghost struct OptionsConfigV {
    pub at_start: Option<Seq<char>>,
    pub at_exit: Option<Seq<char>>,
    pub shell: Option<Seq<char>>,
    pub open_with: Map<Seq<char>, Seq<char>>,
}

impl DeepView for OptionsConfig {
    type V = OptionsConfigV;

    open spec fn deep_view(&self) -> OptionsConfigV {
        OptionsConfigV {
            at_start: self.at_start.deep_view(),
            at_exit: self.at_exit.deep_view(),
            shell: self.shell.deep_view(),
            open_with: self.open_with.deep_view(),
        }
    }
}

impl DeepClone for OptionsConfig {
    fn deep_clone(&self) -> (r: Self)
        ensures
            r.deep_view() == self.deep_view(),
    {
        OptionsConfig {
            at_start: self.at_start.deep_clone(),
            at_exit: self.at_exit.deep_clone(),
            shell: self.shell.deep_clone(),
            open_with: self.open_with.deep_clone(),
        }
    }
}

impl OptionsConfig {
    /// Whether the string maps inside hold distinct keys.
    pub open spec fn wf(&self) -> bool {
        self.open_with.wf()
    }

    /// A copy with the same content, keeping well-formedness visible.
    pub fn duplicate(&self) -> (r: Self)
        ensures
            r.deep_view() == self.deep_view(),
            r.wf() == self.wf(),
    {
        OptionsConfig {
            at_start: self.at_start.deep_clone(),
            at_exit: self.at_exit.deep_clone(),
            shell: self.shell.deep_clone(),
            open_with: self.open_with.duplicate(),
        }
    }

    /// An empty option block.
    pub fn new() -> (r: Self)
        ensures
            r.wf(),
            r.deep_view() == (OptionsConfigV {
                at_start: None,
                at_exit: None,
                shell: None,
                open_with: Map::empty(),
            }),
    {
        OptionsConfig { at_start: None, at_exit: None, shell: None, open_with: SMap::new() }
    }
}

/// A project's raw, hand-edited configuration.
pub struct ProjectConfig {
    pub version: Option<String>,
    pub description: Option<String>,
    pub commands: SMap<Command>,
    pub options: OptionsConfig,
    pub vars: SMap<String>,
    pub env: SMap<String>,
}

/// The ghost mirror of [`ProjectConfig`].
#[verifier::ext_equal]
pub ghost struct ProjectConfigV {
    pub version: Option<Seq<char>>,
    pub description: Option<Seq<char>>,
    pub commands: Map<Seq<char>, CommandV>,
    pub options: OptionsConfigV,
    pub vars: Map<Seq<char>, Seq<char>>,
    pub env: Map<Seq<char>, Seq<char>>,
}

impl DeepView for ProjectConfig {
    type V = ProjectConfigV;

    open spec fn deep_view(&self) -> ProjectConfigV {
        ProjectConfigV {
            version: self.version.deep_view(),
            description: self.description.deep_view(),
            commands: self.commands.deep_view(),
            options: self.options.deep_view(),
            vars: self.vars.deep_view(),
            env: self.env.deep_view(),
        }
    }
}

impl ProjectConfig {
    /// Whether the string maps inside hold distinct keys.
    pub open spec fn wf(&self) -> bool {
        self.commands.wf() && self.options.wf() && self.vars.wf() && self.env.wf()
    }

    /// A copy with the same content, keeping well-formedness visible.
    pub fn duplicate(&self) -> (r: Self)
        ensures
            r.deep_view() == self.deep_view(),
            r.wf() == self.wf(),
    {
        ProjectConfig {
            version: self.version.deep_clone(),
            description: self.description.deep_clone(),
            commands: self.commands.duplicate(),
            options: self.options.duplicate(),
            vars: self.vars.duplicate(),
            env: self.env.duplicate(),
        }
    }

    /// The open-with table a fresh project starts with on the platform.
    pub open spec fn spec_default_open_with(platform: Platform) -> Map<Seq<char>, Seq<char>> {
        match platform {
            Platform::Windows => Map::empty().insert("default"@, "explorer ."@).insert(
                "explorer"@,
                "explorer ."@,
            ).insert("vsc"@, "code ."@),
            Platform::MacOs => Map::empty().insert("default"@, "open ."@).insert(
                "finder"@,
                "open ."@,
            ).insert("vsc"@, "code ."@),
            _ => Map::empty().insert("default"@, "xdg-open ."@).insert(
                "nautilus"@,
                "nautilus ."@,
            ).insert("vsc"@, "code ."@),
        }
    }

    /// A fresh project configuration: a version and description, the
    /// platform's open-with defaults, and no commands, vars or env entries.
    pub fn new(platform: Platform) -> (r: Self)
        ensures
            r.wf(),
            r.version.deep_view() == Some("0.1.0"@),
            r.description.deep_view() == Some("A new project managed by axes."@),
            r.commands@ == Map::<Seq<char>, CommandV>::empty(),
            r.vars@ == Map::<Seq<char>, Seq<char>>::empty(),
            r.env@ == Map::<Seq<char>, Seq<char>>::empty(),
            r.options.at_start is None,
            r.options.at_exit is None,
            r.options.shell is None,
            r.options.open_with@ == Self::spec_default_open_with(platform),
    {
        let mut open_with_defaults: SMap<String> = SMap::new();
        match platform {
            Platform::Windows => {
                open_with_defaults.insert("default".to_owned(), "explorer .".to_owned());
                open_with_defaults.insert("explorer".to_owned(), "explorer .".to_owned());
                open_with_defaults.insert("vsc".to_owned(), "code .".to_owned());
            },
            Platform::MacOs => {
                open_with_defaults.insert("default".to_owned(), "open .".to_owned());
                open_with_defaults.insert("finder".to_owned(), "open .".to_owned());
                open_with_defaults.insert("vsc".to_owned(), "code .".to_owned());
            },
            _ => {
                open_with_defaults.insert("default".to_owned(), "xdg-open .".to_owned());
                open_with_defaults.insert("nautilus".to_owned(), "nautilus .".to_owned());
                open_with_defaults.insert("vsc".to_owned(), "code .".to_owned());
            },
        }
        ProjectConfig {
            version: Some("0.1.0".to_owned()),
            description: Some("A new project managed by axes.".to_owned()),
            commands: SMap::new(),
            options: OptionsConfig {
                at_start: None,
                at_exit: None,
                shell: None,
                open_with: open_with_defaults,
            },
            vars: SMap::new(),
            env: SMap::new(),
        }
    }
}

/// One node of the global project graph.
pub struct IndexEntry {
    pub name: String,
    pub path: String,
    pub parent: Option<u128>,
}

/// The ghost mirror of [`IndexEntry`].
#[verifier::ext_equal]
pub ghost struct IndexEntryV {
    pub name: Seq<char>,
    pub path: Seq<char>,
    pub parent: Option<u128>,
}

impl DeepView for IndexEntry {
    type V = IndexEntryV;

    open spec fn deep_view(&self) -> IndexEntryV {
        IndexEntryV { name: self.name@, path: self.path@, parent: self.parent }
    }
}

impl DeepClone for IndexEntry {
    fn deep_clone(&self) -> (r: Self)
        ensures
            r.deep_view() == self.deep_view(),
    {
        IndexEntry {
            name: self.name.deep_clone(),
            path: self.path.deep_clone(),
            parent: self.parent,
        }
    }
}

/// A project's local identity mirror, stored beside its files.
pub struct ProjectRef {
    pub self_uuid: u128,
    pub parent_uuid: Option<u128>,
    pub name: String,
}

/// The per-parent record behind the `*` shorthand.
pub struct LastUsedCache {
    pub child_uuid: Option<u128>,
}

/// A parent's name-to-identity table of children, kept as a local cache.
pub struct ChildCache {
    pub children: SMap<u128>,
}

/// The computed, merged view of a project's configuration.
pub struct ResolvedConfig {
    pub uuid: u128,
    pub qualified_name: String,
    pub project_root: String,
    pub version: Option<String>,
    pub description: Option<String>,
    pub commands: SMap<Command>,
    pub options: OptionsConfig,
    pub vars: SMap<String>,
    pub env: SMap<String>,
}

/// The ghost mirror of [`ResolvedConfig`].
#[verifier::ext_equal]
pub ghost struct ResolvedConfigV {
    pub uuid: u128,
    pub qualified_name: Seq<char>,
    pub project_root: Seq<char>,
    pub version: Option<Seq<char>>,
    pub description: Option<Seq<char>>,
    pub commands: Map<Seq<char>, CommandV>,
    pub options: OptionsConfigV,
    pub vars: Map<Seq<char>, Seq<char>>,
    pub env: Map<Seq<char>, Seq<char>>,
}

impl DeepView for ResolvedConfig {
    type V = ResolvedConfigV;

    open spec fn deep_view(&self) -> ResolvedConfigV {
        ResolvedConfigV {
            uuid: self.uuid,
            qualified_name: self.qualified_name@,
            project_root: self.project_root@,
            version: self.version.deep_view(),
            description: self.description.deep_view(),
            commands: self.commands.deep_view(),
            options: self.options.deep_view(),
            vars: self.vars.deep_view(),
            env: self.env.deep_view(),
        }
    }
}

impl ResolvedConfig {
    /// Whether the string maps inside hold distinct keys.
    pub open spec fn wf(&self) -> bool {
        self.commands.wf() && self.options.wf() && self.vars.wf() && self.env.wf()
    }

    /// A copy with the same content, keeping well-formedness visible.
    pub fn duplicate(&self) -> (r: Self)
        ensures
            r.deep_view() == self.deep_view(),
            r.wf() == self.wf(),
    {
        ResolvedConfig {
            uuid: self.uuid,
            qualified_name: self.qualified_name.deep_clone(),
            project_root: self.project_root.deep_clone(),
            version: self.version.deep_clone(),
            description: self.description.deep_clone(),
            commands: self.commands.duplicate(),
            options: self.options.duplicate(),
            vars: self.vars.duplicate(),
            env: self.env.duplicate(),
        }
    }
}

impl DeepClone for ResolvedConfig {
    fn deep_clone(&self) -> (r: Self)
        ensures
            r.deep_view() == self.deep_view(),
    {
        ResolvedConfig {
            uuid: self.uuid,
            qualified_name: self.qualified_name.deep_clone(),
            project_root: self.project_root.deep_clone(),
            version: self.version.deep_clone(),
            description: self.description.deep_clone(),
            commands: self.commands.deep_clone(),
            options: self.options.deep_clone(),
            vars: self.vars.deep_clone(),
            env: self.env.deep_clone(),
        }
    }
}

/// A persisted resolved-config snapshot with the raw-config files and
/// modification times it depends on.
pub struct ConfigCache {
    pub resolved_config: ResolvedConfig,
    pub dependencies: Vec<(String, u128)>,
}

/// One configured shell.
pub struct ShellConfig {
    pub path: String,
    pub interactive_args: Option<Vec<String>>,
}

/// The ghost mirror of [`ShellConfig`].
#[verifier::ext_equal]
pub ghost struct ShellConfigV {
    pub path: Seq<char>,
    pub interactive_args: Option<Seq<Seq<char>>>,
}

impl DeepView for ShellConfig {
    type V = ShellConfigV;

    open spec fn deep_view(&self) -> ShellConfigV {
        ShellConfigV {
            path: self.path@,
            interactive_args: self.interactive_args.deep_view(),
        }
    }
}

/// The table of configured shells.
pub struct ShellsConfig {
    pub shells: SMap<ShellConfig>,
}

} // verus!
