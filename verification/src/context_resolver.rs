//! The context resolver: turns a `/`-separated context string into a project
//! identity and its slash-joined qualified name.
//!
//! The first segment has an extended vocabulary (`**`, `.`, `_`, `global`, or
//! a child of the root); later segments are child names, `..` for the parent,
//! or `*` for the last-used child. Resolution that needs the filesystem or
//! the interactive collaborator pauses and hands the caller a query; the
//! caller answers it and resumes the machine. Every decision in between is
//! verified against the ghost resolution relation below.

use vstd::prelude::*;

use crate::graph::{
    has_child_named, siblings_unique, GlobalIndex, GLOBAL_PROJECT_UUID,
};
use crate::models::IndexEntryV;
use crate::smap::DeepClone;
use crate::executor::{eq_ignore_case, spec_str_eq_ci};
use crate::strutil::{join_slash, join_slash_spec, push_char, str_eq};
use vstd::string::StrSliceExecFns;

verus! {

/// What context resolution can fail with.
#[derive(Debug)]
pub enum ContextError {
    /// The context string holds no segment.
    EmptyContext,
    /// `**` appeared after the first segment.
    GlobalRecentNotAtStart,
    /// `.` or `_` appeared after the first segment.
    LocalPathNotAtStart,
    /// `..` was applied to a node without a parent.
    AlreadyAtRoot,
    /// `**` was used but no project was used recently.
    NoLastUsedProject,
    /// `*` was used under a parent with no children.
    NoLastUsedChild { parent_name: String },
    /// No registered project was found at or above the working directory.
    ProjectNotFoundFromPath,
    /// No registered project was found at the working directory itself.
    ProjectNotFoundInCwd,
    /// The first segment names no child of the root.
    RootProjectNotFound { name: String },
    /// A later segment names no child of the current node.
    ChildProjectNotFound { child_name: String, parent_name: String },
    /// The interactive selection was declined.
    Cancelled,
    /// The graph itself is inconsistent under the walked path.
    Index(crate::index_manager::IndexError),
}

/// Splits on `/`, keeping the non-empty segments, with `cur` the segment
/// being accumulated.
pub open spec fn split_acc(s: Seq<char>, cur: Seq<char>) -> Seq<Seq<char>>
    decreases s.len(),
{
    if s.len() == 0 {
        if cur.len() == 0 {
            Seq::empty()
        } else {
            seq![cur]
        }
    } else if s[0] == '/' {
        (if cur.len() == 0 {
            Seq::<Seq<char>>::empty()
        } else {
            seq![cur]
        }) + split_acc(s.drop_first(), Seq::empty())
    } else {
        split_acc(s.drop_first(), cur.push(s[0]))
    }
}

/// The non-empty `/`-separated segments of a context string.
pub open spec fn split_slash(s: Seq<char>) -> Seq<Seq<char>> {
    split_acc(s, Seq::empty())
}

/// Splits a context string on `/`, dropping empty segments.
pub fn split_context(context: &str) -> (r: Vec<String>)
    ensures
        r.deep_view() == split_slash(context@),
{
    let ghost full = context@;
    let n = context.unicode_len();
    let mut done: Vec<String> = Vec::new();
    let mut cur = String::new();
    let mut i: usize = 0;
    proof {
        assert(full.skip(0) =~= full);
        assert(done.deep_view() =~= Seq::<Seq<char>>::empty());
        assert(done.deep_view() + split_acc(full.skip(0), cur@) =~= split_slash(full));
    }
    while i < n
        invariant
            i <= n,
            n == full.len(),
            full == context@,
            split_slash(full) == done.deep_view() + split_acc(full.skip(i as int), cur@),
        decreases n - i,
    {
        let c = context.get_char(i);
        let ghost rem = full.skip(i as int);
        proof {
            assert(rem[0] == full[i as int]);
            assert(rem.drop_first() =~= full.skip(i + 1));
        }
        if c == '/' {
            if !cur.as_str().is_empty() {
                let ghost before = done.deep_view();
                let ghost curv = cur@;
                done.push(cur);
                cur = String::new();
                proof {
                    assert forall|l: int| 0 <= l < done.deep_view().len() implies
                        done.deep_view()[l] == (before + seq![curv])[l] by {
                        if l < before.len() {
                            assert(done@[l] == done@.subrange(0, done@.len() - 1)[l]);
                        }
                    }
                    assert(done.deep_view() =~= before + seq![curv]);
                    assert(cur@ =~= Seq::<char>::empty());
                    assert(split_acc(rem, curv) == seq![curv] + split_acc(
                        rem.drop_first(),
                        Seq::<char>::empty(),
                    ));
                    assert((before + seq![curv]) + split_acc(full.skip(i + 1), cur@) =~= before
                        + split_acc(rem, curv));
                }
            } else {
                proof {
                    assert(cur@ =~= Seq::<char>::empty());
                    assert(split_acc(rem, cur@) == Seq::<Seq<char>>::empty() + split_acc(
                        rem.drop_first(),
                        Seq::<char>::empty(),
                    ));
                    assert(Seq::<Seq<char>>::empty() + split_acc(
                        rem.drop_first(),
                        Seq::<char>::empty(),
                    ) =~= split_acc(rem.drop_first(), Seq::<char>::empty()));
                    assert(split_acc(rem.drop_first(), Seq::<char>::empty()) == split_acc(
                        full.skip(i + 1),
                        cur@,
                    ));
                }
            }
        } else {
            let ghost curv = cur@;
            push_char(&mut cur, c);
            proof {
                assert(cur@ =~= curv.push(c));
                assert(split_acc(rem, curv) == split_acc(rem.drop_first(), curv.push(c)));
            }
        }
        i += 1;
    }
    proof {
        assert(full.skip(n as int) =~= Seq::<char>::empty());
    }
    if !cur.as_str().is_empty() {
        let ghost before = done.deep_view();
        let ghost curv = cur@;
        done.push(cur);
        proof {
            assert forall|l: int| 0 <= l < done.deep_view().len() implies done.deep_view()[l] == (
            before + seq![curv])[l] by {
                if l < before.len() {
                    assert(done@[l] == done@.subrange(0, done@.len() - 1)[l]);
                }
            }
            assert(done.deep_view() =~= before + seq![curv]);
            assert(split_acc(Seq::<char>::empty(), curv) =~= seq![curv]);
        }
    } else {
        proof {
            assert(split_acc(Seq::<char>::empty(), cur@) =~= Seq::<Seq<char>>::empty());
            assert(done.deep_view() + Seq::<Seq<char>>::empty() =~= done.deep_view());
        }
    }
    done
}

/// The unique child of `parent` carrying `name`, when sibling names are
/// unique; some such child otherwise.
pub open spec fn spec_child(
    m: Map<u128, IndexEntryV>,
    parent: u128,
    name: Seq<char>,
) -> Option<u128> {
    if has_child_named(m, Some(parent), name) {
        Some(
            choose|c: u128|
                m.contains_key(c) && (#[trigger] m[c]).parent == Some(parent) && m[c].name
                    == name,
        )
    } else {
        None
    }
}

/// The failure a ghost resolution ends in, abstracted from error strings.
#[verifier::ext_equal]
pub ghost enum SpecFailure {
    EmptyContext,
    GlobalRecentNotAtStart,
    LocalPathNotAtStart,
    AlreadyAtRoot,
    NoLastUsedProject,
    RootProjectNotFound { name: Seq<char> },
    ChildProjectNotFound { child_name: Seq<char>, parent: u128 },
    BrokenParentLink { child: u128, missing: u128 },
}

/// Where the ghost resolution of a context ends: at a node with its display
/// names, paused for outside input (`.`, `_` or `*`), or in a failure.
#[verifier::ext_equal]
pub ghost enum SpecResolution {
    Done { id: u128, names: Seq<Seq<char>> },
    Paused,
    Failed { failure: SpecFailure },
}

/// The ghost resolution of the remaining segments from a current node and
/// its accumulated display names, classifying every outcome. The arm for a
/// current node outside the graph is never reached along a resolution, whose
/// current node is always registered.
pub open spec fn spec_step_from(
    m: Map<u128, IndexEntryV>,
    cur: u128,
    names: Seq<Seq<char>>,
    segs: Seq<Seq<char>>,
) -> SpecResolution
    decreases segs.len(),
{
    if segs.len() == 0 {
        SpecResolution::Done { id: cur, names }
    } else {
        let seg = segs[0];
        if seg == "**"@ {
            SpecResolution::Failed { failure: SpecFailure::GlobalRecentNotAtStart }
        } else if seg == "."@ || seg == "_"@ {
            SpecResolution::Failed { failure: SpecFailure::LocalPathNotAtStart }
        } else if seg == ".."@ {
            if !m.contains_key(cur) {
                SpecResolution::Paused
            } else {
                match m[cur].parent {
                    None => SpecResolution::Failed { failure: SpecFailure::AlreadyAtRoot },
                    Some(p) => if m.contains_key(p) {
                        spec_step_from(
                            m,
                            p,
                            if names.len() == 0 {
                                names
                            } else {
                                names.drop_last()
                            },
                            segs.drop_first(),
                        )
                    } else {
                        SpecResolution::Failed {
                            failure: SpecFailure::BrokenParentLink { child: cur, missing: p },
                        }
                    },
                }
            }
        } else if seg == "*"@ {
            SpecResolution::Paused
        } else {
            match spec_child(m, cur, seg) {
                Some(c) => spec_step_from(m, c, names.push(m[c].name), segs.drop_first()),
                None => SpecResolution::Failed {
                    failure: SpecFailure::ChildProjectNotFound { child_name: seg, parent: cur },
                },
            }
        }
    }
}

/// The ghost resolution of a whole context, the first segment's extended
/// vocabulary included.
pub open spec fn spec_resolution(
    m: Map<u128, IndexEntryV>,
    last_used: Option<u128>,
    segs: Seq<Seq<char>>,
) -> SpecResolution {
    if segs.len() == 0 {
        SpecResolution::Failed { failure: SpecFailure::EmptyContext }
    } else {
        let seg = segs[0];
        if seg == "**"@ {
            match last_used {
                Some(u) => if m.contains_key(u) {
                    spec_step_from(m, u, seq![m[u].name], segs.drop_first())
                } else {
                    SpecResolution::Failed { failure: SpecFailure::NoLastUsedProject }
                },
                None => SpecResolution::Failed { failure: SpecFailure::NoLastUsedProject },
            }
        } else if seg == "."@ || seg == "_"@ {
            SpecResolution::Paused
        } else if seg == "global"@ {
            if m.contains_key(GLOBAL_PROJECT_UUID) {
                spec_step_from(
                    m,
                    GLOBAL_PROJECT_UUID,
                    seq![m[GLOBAL_PROJECT_UUID].name],
                    segs.drop_first(),
                )
            } else {
                SpecResolution::Failed { failure: SpecFailure::RootProjectNotFound { name: seg } }
            }
        } else {
            match spec_child(m, GLOBAL_PROJECT_UUID, seg) {
                Some(c) => spec_step_from(m, c, seq![m[c].name], segs.drop_first()),
                None => SpecResolution::Failed {
                    failure: SpecFailure::RootProjectNotFound { name: seg },
                },
            }
        }
    }
}

/// The successful ghost resolution of remaining segments, when there is one.
pub open spec fn spec_resolve_from(
    m: Map<u128, IndexEntryV>,
    cur: u128,
    names: Seq<Seq<char>>,
    segs: Seq<Seq<char>>,
) -> Option<(u128, Seq<Seq<char>>)> {
    match spec_step_from(m, cur, names, segs) {
        SpecResolution::Done { id, names } => Some((id, names)),
        _ => None,
    }
}

/// The successful ghost resolution of a whole context, when there is one.
pub open spec fn spec_resolve(
    m: Map<u128, IndexEntryV>,
    last_used: Option<u128>,
    segs: Seq<Seq<char>>,
) -> Option<(u128, Seq<Seq<char>>)> {
    match spec_resolution(m, last_used, segs) {
        SpecResolution::Done { id, names } => Some((id, names)),
        _ => None,
    }
}

/// Whether an executable error reports the ghost failure: same variant, and
/// the carried names and identities agree.
pub open spec fn failure_matches(
    m: Map<u128, IndexEntryV>,
    e: ContextError,
    f: SpecFailure,
) -> bool {
    match f {
        SpecFailure::EmptyContext => e is EmptyContext,
        SpecFailure::GlobalRecentNotAtStart => e is GlobalRecentNotAtStart,
        SpecFailure::LocalPathNotAtStart => e is LocalPathNotAtStart,
        SpecFailure::AlreadyAtRoot => e is AlreadyAtRoot,
        SpecFailure::NoLastUsedProject => e is NoLastUsedProject,
        SpecFailure::RootProjectNotFound { name } => e matches ContextError::RootProjectNotFound {
            name: n,
        } && n@ == name,
        SpecFailure::ChildProjectNotFound { child_name, parent } => e
            matches ContextError::ChildProjectNotFound { child_name: c, parent_name: p } && c@
            == child_name && m.contains_key(parent) && p@ == m[parent].name,
        SpecFailure::BrokenParentLink { child, missing } => e matches ContextError::Index(
            crate::index_manager::IndexError::BrokenParentLink {
                child_uuid,
                missing_parent_uuid,
            },
        ) && child_uuid == child && missing_parent_uuid == missing,
    }
}

/// Whether an executable outcome agrees with the ghost resolution: the same
/// node and slash-joined name on success, a pause where input is needed, and
/// the matching error on failure.
pub open spec fn resolution_agrees(
    m: Map<u128, IndexEntryV>,
    r: Result<ContextOutcome, ContextError>,
    s: SpecResolution,
) -> bool {
    match s {
        SpecResolution::Done { id, names } => r matches Ok(ContextOutcome::Resolved(u, q)) && u
            == id && q@ == join_slash_spec(names),
        SpecResolution::Paused => r matches Ok(o) && o is NeedsInput,
        SpecResolution::Failed { failure } => r matches Err(e) && failure_matches(m, e, failure),
    }
}

/// A question the resolver needs answered before it can go on.
pub enum ContextQuery {
    /// Map the working directory (or its nearest marked ancestor, with
    /// `search_up`) to a registered identity.
    LocalProject { search_up: bool },
    /// Read the parent's last-used-child cache, stored under its project
    /// root.
    LastUsedChild { parent_uuid: u128, parent_path: String },
    /// Let the collaborator pick one of the parent's children by name.
    SelectChild { parent_uuid: u128, parent_name: String, candidates: Vec<String> },
}

/// The caller's answer to a [`ContextQuery`].
pub enum ContextReply {
    /// The identity found from the filesystem, if any.
    LocalProject(Option<u128>),
    /// The cached last-used child, if the cache held one.
    LastUsedChild(Option<u128>),
    /// The picked candidate position, or `None` for a declined selection.
    SelectChild(Option<usize>),
}

/// What came out of starting or resuming a resolution.
pub enum ContextOutcome {
    /// The context resolved to an identity and its qualified name.
    Resolved(u128, String),
    /// The resolver needs the enclosed query answered; resume it with the
    /// reply to go on.
    NeedsInput(ContextResolver, ContextQuery),
}

/// What the paused resolver is waiting for.
enum Pending {
    Local { search_up: bool },
    Child { parent: u128 },
    Select { parent: u128, parent_name: String, candidates: Vec<String> },
}

/// A paused context resolution.
pub struct ContextResolver {
    segments: Vec<String>,
    pos: usize,
    current: u128,
    names: Vec<String>,
    pending: Pending,
}

impl ContextResolver {
    /// The segments not yet consumed.
    pub closed spec fn spec_remaining(&self) -> Seq<Seq<char>> {
        self.segments.deep_view().skip(self.pos as int)
    }

    /// The node the consumed prefix resolved to.
    pub closed spec fn spec_current(&self) -> u128 {
        self.current
    }

    /// The display names accumulated so far.
    pub closed spec fn spec_names(&self) -> Seq<Seq<char>> {
        self.names.deep_view()
    }

    /// The paused machine is consistent: it pauses on a real segment, a
    /// filesystem query belongs to the first one, and every other query
    /// belongs to a `*` segment.
    pub closed spec fn wf(&self) -> bool {
        &&& self.pos < self.segments@.len()
        &&& (self.pending is Local ==> self.pos == 0)
        &&& (!(self.pending is Local) ==> self.segments@[self.pos as int]@ == "*"@)
    }

    /// Whether the machine awaits the filesystem lookup of the first segment.
    pub closed spec fn awaiting_local(&self) -> bool {
        self.pending is Local
    }

    /// Whether the awaited filesystem lookup searches upward.
    pub closed spec fn local_search_up(&self) -> bool {
        match self.pending {
            Pending::Local { search_up } => search_up,
            _ => false,
        }
    }

    /// The parent whose last-used child the machine awaits, if any.
    pub closed spec fn awaiting_child_of(&self) -> Option<u128> {
        match self.pending {
            Pending::Child { parent } => Some(parent),
            _ => None,
        }
    }

    /// The parent whose child selection the machine awaits, if any.
    pub closed spec fn awaiting_selection_of(&self) -> Option<u128> {
        match self.pending {
            Pending::Select { parent, .. } => Some(parent),
            _ => None,
        }
    }

    /// The candidate names offered to the awaited selection.
    pub closed spec fn spec_candidates(&self) -> Seq<Seq<char>> {
        match self.pending {
            Pending::Select { candidates, .. } => candidates.deep_view(),
            _ => Seq::empty(),
        }
    }

    /// The display name recorded for the awaited selection's parent.
    pub closed spec fn spec_pending_parent_name(&self) -> Seq<char> {
        match self.pending {
            Pending::Select { parent_name, .. } => parent_name@,
            _ => Seq::empty(),
        }
    }

    /// Which reply the paused resolver expects; callers learn the pending
    /// kind from the query handed out beside the machine.
    pub open spec fn expects(&self, reply: ContextReply) -> bool {
        match reply {
            ContextReply::LocalProject(_) => self.awaiting_local(),
            ContextReply::LastUsedChild(_) => self.awaiting_child_of() is Some,
            ContextReply::SelectChild(_) => self.awaiting_selection_of() is Some,
        }
    }
}

/// A paused machine and its query describe the same pending question, with
/// the query's data drawn from the graph.
pub open spec fn pause_consistent(
    m: Map<u128, IndexEntryV>,
    mach: ContextResolver,
    q: ContextQuery,
) -> bool {
    &&& mach.wf()
    &&& match q {
        ContextQuery::LocalProject { search_up } => mach.awaiting_local() && mach.local_search_up()
            == search_up && mach.spec_names() == Seq::<Seq<char>>::empty(),
        ContextQuery::LastUsedChild { parent_uuid, parent_path } => {
            &&& mach.awaiting_child_of() == Some(parent_uuid)
            &&& mach.spec_current() == parent_uuid
            &&& m.contains_key(parent_uuid)
            &&& parent_path@ == m[parent_uuid].path
            &&& mach.spec_remaining().len() > 0
            &&& mach.spec_remaining()[0] == "*"@
        },
        ContextQuery::SelectChild { parent_uuid, parent_name, candidates } => {
            &&& mach.awaiting_selection_of() == Some(parent_uuid)
            &&& mach.spec_current() == parent_uuid
            &&& mach.spec_candidates() == candidates.deep_view()
            &&& mach.spec_pending_parent_name() == parent_name@
            &&& candidates@.len() > 0
            &&& (forall|i: int|
                0 <= i < candidates.deep_view().len() ==> has_child_named(
                    m,
                    Some(parent_uuid),
                    #[trigger] candidates.deep_view()[i],
                ))
            &&& (forall|c: u128|
                m.contains_key(c) && (#[trigger] m[c]).parent == Some(parent_uuid)
                    ==> candidates.deep_view().contains(m[c].name))
            &&& (m.contains_key(parent_uuid) ==> parent_name@ == m[parent_uuid].name)
            &&& mach.spec_remaining().len() > 0
            &&& mach.spec_remaining()[0] == "*"@
        },
    }
}

/// A usable cached child: registered, and still a child of the parent whose
/// cache named it.
pub open spec fn valid_cached_child(
    m: Map<u128, IndexEntryV>,
    parent: u128,
    cached: Option<u128>,
) -> bool {
    cached matches Some(u) && m.contains_key(u) && m[u].parent == Some(parent)
}

/// Whether any entry is a child of the parent.
pub open spec fn has_children(m: Map<u128, IndexEntryV>, parent: u128) -> bool {
    exists|c: u128| m.contains_key(c) && (#[trigger] m[c]).parent == Some(parent)
}

/// What falling back from a missed child cache must produce: with children
/// present, a pause on their selection; with none, the distinguished error
/// naming the parent.
pub open spec fn fallback_outcome(
    m: Map<u128, IndexEntryV>,
    r: Result<ContextOutcome, ContextError>,
    parent: u128,
) -> bool {
    if has_children(m, parent) {
        r matches Ok(ContextOutcome::NeedsInput(mach, q)) && pause_consistent(m, mach, q) && q
            is SelectChild && mach.awaiting_selection_of() == Some(parent)
    } else {
        r matches Err(ContextError::NoLastUsedChild { parent_name }) && (m.contains_key(parent)
            ==> parent_name@ == m[parent].name)
    }
}

/// What answering the selection must produce: declining (or a position out
/// of range) cancels; a picked position resolves through the child bearing
/// that candidate name, or reports it missing.
pub open spec fn selection_outcome(
    m: Map<u128, IndexEntryV>,
    r: Result<ContextOutcome, ContextError>,
    mach: ContextResolver,
    choice: Option<usize>,
) -> bool {
    let parent = mach.awaiting_selection_of()->0;
    let cands = mach.spec_candidates();
    match choice {
        None => r matches Err(e) && e is Cancelled,
        Some(i) => if i >= cands.len() {
            r matches Err(e) && e is Cancelled
        } else if !has_child_named(m, Some(parent), cands[i as int]) {
            r matches Err(ContextError::ChildProjectNotFound { child_name, parent_name })
                && child_name@ == cands[i as int] && parent_name@
                == mach.spec_pending_parent_name()
        } else {
            siblings_unique(m) ==> resolution_agrees(
                m,
                r,
                spec_step_from(
                    m,
                    spec_child(m, parent, cands[i as int])->0,
                    mach.spec_names().push(m[spec_child(m, parent, cands[i as int])->0].name),
                    mach.spec_remaining().drop_first(),
                ),
            )
        },
    }
}

/// Resolves a context string against the graph, or pauses on the first
/// query. With unique sibling names — which registration, renaming and
/// re-parenting all enforce — the outcome agrees with the ghost resolution
/// on every input: the resolved identity and slash-joined qualified name,
/// the pause points, and each failure of the grammar's tables.
pub fn resolve_context(context: &str, index: &GlobalIndex) -> (r: Result<
    ContextOutcome,
    ContextError,
>)
    requires
        index.wf(),
    ensures
        ({
            let m = index.projects_map();
            let segs = split_slash(context@);
            &&& (r matches Err(ContextError::EmptyContext) <==> segs.len() == 0)
            &&& (r matches Ok(ContextOutcome::Resolved(u, q)) ==> m.contains_key(u))
            &&& (r matches Ok(ContextOutcome::NeedsInput(mach, q)) ==> pause_consistent(m, mach, q)
                && !(q is SelectChild) && (exists|k: int|
                0 <= k < segs.len() && mach.spec_remaining() == #[trigger] segs.skip(k)))
            &&& (r matches Ok(ContextOutcome::NeedsInput(mach, q)) ==> (q
                matches ContextQuery::LocalProject { search_up } ==> segs.len() > 0 && (search_up
                <==> segs[0] == "."@) && (segs[0] == "."@ || segs[0] == "_"@)))
            &&& (siblings_unique(m) ==> resolution_agrees(
                m,
                r,
                spec_resolution(m, index.spec_last_used(), segs),
            ))
        }),
{
    let ghost m = index.projects_map();
    let segments = split_context(context);
    let ghost segs = split_slash(context@);
    if segments.len() == 0 {
        return Err(ContextError::EmptyContext);
    }
    proof {
        assert(segs[0] == segments@[0]@);
        assert(segs.drop_first() =~= segments.deep_view().skip(1));
    }
    let first = &segments[0];
    if str_eq(first.as_str(), "**") {
        match index.last_used() {
            None => Err(ContextError::NoLastUsedProject),
            Some(u) => {
                if !index.contains_project(u) {
                    return Err(ContextError::NoLastUsedProject);
                }
                proof {
                    assert(spec_resolution(m, index.spec_last_used(), segs) == spec_step_from(
                        m,
                        u,
                        seq![m[u].name],
                        segments.deep_view().skip(1),
                    ));
                }
                step_machine(segments, 1, u, index)
            },
        }
    } else if str_eq(first.as_str(), ".") {
        let machine = ContextResolver {
            segments,
            pos: 0,
            current: 0,
            names: Vec::new(),
            pending: Pending::Local { search_up: true },
        };
        proof {
            assert(machine.spec_names() =~= Seq::<Seq<char>>::empty());
            assert(machine.spec_remaining() =~= segs.skip(0));
        }
        Ok(ContextOutcome::NeedsInput(machine, ContextQuery::LocalProject { search_up: true }))
    } else if str_eq(first.as_str(), "_") {
        let machine = ContextResolver {
            segments,
            pos: 0,
            current: 0,
            names: Vec::new(),
            pending: Pending::Local { search_up: false },
        };
        proof {
            assert(machine.spec_names() =~= Seq::<Seq<char>>::empty());
            assert(machine.spec_remaining() =~= segs.skip(0));
        }
        Ok(ContextOutcome::NeedsInput(machine, ContextQuery::LocalProject { search_up: false }))
    } else if str_eq(first.as_str(), "global") {
        if !index.contains_project(GLOBAL_PROJECT_UUID) {
            return Err(ContextError::RootProjectNotFound { name: first.deep_clone() });
        }
        proof {
            assert(spec_resolution(m, index.spec_last_used(), segs) == spec_step_from(
                m,
                GLOBAL_PROJECT_UUID,
                seq![m[GLOBAL_PROJECT_UUID].name],
                segments.deep_view().skip(1),
            ));
        }
        step_machine(segments, 1, GLOBAL_PROJECT_UUID, index)
    } else {
        match index.find_child_by_name(GLOBAL_PROJECT_UUID, first.as_str()) {
            None => Err(ContextError::RootProjectNotFound { name: first.deep_clone() }),
            Some(c) => {
                proof {
                    if siblings_unique(m) {
                        assert(spec_child(m, GLOBAL_PROJECT_UUID, segs[0]) == Some(c));
                        assert(spec_resolution(m, index.spec_last_used(), segs) == spec_step_from(
                            m,
                            c,
                            seq![m[c].name],
                            segments.deep_view().skip(1),
                        ));
                    }
                }
                step_machine(segments, 1, c, index)
            },
        }
    }
}

impl ContextResolver {
    /// Resumes a paused resolution with the answer to its query.
    ///
    /// A usable answer continues the ghost resolution from the answered
    /// node; an unusable filesystem answer yields the matching not-found
    /// error; a missed child cache falls back to the children selection; and
    /// the selection resolves the picked candidate, or cancels.
    pub fn resume(self, reply: ContextReply, index: &GlobalIndex) -> (r: Result<
        ContextOutcome,
        ContextError,
    >)
        requires
            index.wf(),
            self.wf(),
            self.expects(reply),
        ensures
            ({
                let m = index.projects_map();
                &&& (r matches Ok(ContextOutcome::Resolved(u, q)) ==> m.contains_key(u))
                &&& (r matches Ok(ContextOutcome::NeedsInput(mach, q)) ==> pause_consistent(
                    m,
                    mach,
                    q,
                ) && !(q is LocalProject))
                &&& ((self.awaiting_local() && reply is LocalProject && reply->LocalProject_0
                    is Some && m.contains_key(reply->LocalProject_0->0) && siblings_unique(m))
                    ==> resolution_agrees(
                    m,
                    r,
                    spec_step_from(
                        m,
                        reply->LocalProject_0->0,
                        seq![m[reply->LocalProject_0->0].name],
                        self.spec_remaining().drop_first(),
                    ),
                ))
                &&& ((self.awaiting_local() && reply is LocalProject && !(reply->LocalProject_0
                    matches Some(u) && m.contains_key(u))) ==> (r matches Err(e) && (
                self.local_search_up() ==> e is ProjectNotFoundFromPath) && (
                !self.local_search_up() ==> e is ProjectNotFoundInCwd)))
                &&& ((self.awaiting_child_of() is Some && reply is LastUsedChild
                    && valid_cached_child(
                    m,
                    self.awaiting_child_of()->0,
                    reply->LastUsedChild_0,
                ) && siblings_unique(m)) ==> resolution_agrees(
                    m,
                    r,
                    spec_step_from(
                        m,
                        reply->LastUsedChild_0->0,
                        self.spec_names().push(m[reply->LastUsedChild_0->0].name),
                        self.spec_remaining().drop_first(),
                    ),
                ))
                &&& ((self.awaiting_child_of() is Some && reply is LastUsedChild
                    && !valid_cached_child(
                    m,
                    self.awaiting_child_of()->0,
                    reply->LastUsedChild_0,
                )) ==> fallback_outcome(m, r, self.awaiting_child_of()->0))
                &&& ((self.awaiting_selection_of() is Some && reply is SelectChild)
                    ==> selection_outcome(m, r, self, reply->SelectChild_0))
            }),
    {
        let ghost m = index.projects_map();
        let ghost remaining0 = self.spec_remaining();
        let ghost names0 = self.spec_names();
        let ContextResolver { segments, pos, current, names, pending } = self;
        proof {
            assert(remaining0 == segments.deep_view().skip(pos as int));
            assert(names0 == names.deep_view());
        }
        let total = segments.len();
        proof {
            assert(pos < total);
        }
        match pending {
            Pending::Local { search_up } => {
                match reply {
                    ContextReply::LocalProject(found) => {
                        match found {
                            Some(u) => {
                                if index.contains_project(u) {
                                    proof {
                                        assert(remaining0.drop_first()
                                            =~= segments.deep_view().skip(1));
                                    }
                                    step_machine(segments, 1, u, index)
                                } else if search_up {
                                    Err(ContextError::ProjectNotFoundFromPath)
                                } else {
                                    Err(ContextError::ProjectNotFoundInCwd)
                                }
                            },
                            None => if search_up {
                                Err(ContextError::ProjectNotFoundFromPath)
                            } else {
                                Err(ContextError::ProjectNotFoundInCwd)
                            },
                        }
                    },
                    _ => Err(ContextError::Cancelled),
                }
            },
            Pending::Child { parent } => {
                match reply {
                    ContextReply::LastUsedChild(found) => {
                        let valid = match found {
                            Some(u) => {
                                match index.get_entry(u) {
                                    Some(e) => match e.parent {
                                        Some(p) => p == parent,
                                        None => false,
                                    },
                                    None => false,
                                }
                            },
                            None => false,
                        };
                        if valid {
                            let u = match found {
                                Some(u) => u,
                                None => 0,
                            };
                            let mut names = names;
                            let ghost before = names.deep_view();
                            match index.get_entry(u) {
                                Some(e) => names.push(e.name.deep_clone()),
                                None => {},
                            }
                            proof {
                                assert(names.deep_view() =~= before.push(m[u].name));
                                assert(remaining0.drop_first() =~= segments.deep_view().skip(
                                    pos + 1,
                                ));
                            }
                            step_machine_with_names(segments, pos + 1, u, names, index)
                        } else {
                            // cache miss or stale entry: fall back to the
                            // interactive selection over the current children
                            offer_children(segments, pos, parent, names, index)
                        }
                    },
                    _ => Err(ContextError::Cancelled),
                }
            },
            Pending::Select { parent, parent_name, candidates } => {
                match reply {
                    ContextReply::SelectChild(choice) => {
                        match choice {
                            None => Err(ContextError::Cancelled),
                            Some(i) => {
                                if i >= candidates.len() {
                                    return Err(ContextError::Cancelled);
                                }
                                proof {
                                    assert(candidates.deep_view()[i as int]
                                        == candidates@[i as int]@);
                                }
                                match index.find_child_by_name(parent, candidates[i].as_str()) {
                                    None => Err(ContextError::ChildProjectNotFound {
                                        child_name: candidates[i].deep_clone(),
                                        parent_name,
                                    }),
                                    Some(c) => {
                                        proof {
                                            if siblings_unique(m) {
                                                assert(spec_child(
                                                    m,
                                                    parent,
                                                    candidates.deep_view()[i as int],
                                                ) == Some(c));
                                            }
                                            assert(remaining0.drop_first()
                                                =~= segments.deep_view().skip(pos + 1));
                                        }
                                        let mut names = names;
                                        let ghost before = names.deep_view();
                                        match index.get_entry(c) {
                                            Some(e) => names.push(e.name.deep_clone()),
                                            None => {},
                                        }
                                        proof {
                                            assert(names.deep_view() =~= before.push(m[c].name));
                                        }
                                        step_machine_with_names(
                                            segments,
                                            pos + 1,
                                            c,
                                            names,
                                            index,
                                        )
                                    },
                                }
                            },
                        }
                    },
                    _ => Err(ContextError::Cancelled),
                }
            },
        }
    }
}

/// Starts the segment loop from the first resolved node, seeding the names
/// with its display name.
fn step_machine(segments: Vec<String>, pos: usize, current: u128, index: &GlobalIndex) -> (r:
    Result<ContextOutcome, ContextError>)
    requires
        index.wf(),
        index.projects_map().contains_key(current),
        1 <= pos <= segments@.len(),
    ensures
        ({
            let m = index.projects_map();
            &&& !(r matches Err(ContextError::EmptyContext))
            &&& (r matches Ok(ContextOutcome::Resolved(u, q)) ==> m.contains_key(u))
            &&& (r matches Ok(ContextOutcome::NeedsInput(mach, q)) ==> pause_consistent(m, mach, q)
                && q is LastUsedChild && (exists|k: int|
                pos <= k < segments.deep_view().len() && mach.spec_remaining()
                    == #[trigger] segments.deep_view().skip(k)))
            &&& (siblings_unique(m) ==> resolution_agrees(
                m,
                r,
                spec_step_from(
                    m,
                    current,
                    seq![m[current].name],
                    segments.deep_view().skip(pos as int),
                ),
            ))
        }),
{
    let ghost m = index.projects_map();
    let mut names: Vec<String> = Vec::new();
    match index.get_entry(current) {
        Some(e) => names.push(e.name.deep_clone()),
        None => {},
    }
    proof {
        assert(names.deep_view() =~= seq![m[current].name]);
    }
    step_machine_with_names(segments, pos, current, names, index)
}

/// The segment loop: consumes deterministic segments until the context is
/// exhausted, a query is needed, or resolution fails.
#[verifier::loop_isolation(false)]
fn step_machine_with_names(
    segments: Vec<String>,
    pos: usize,
    current: u128,
    names: Vec<String>,
    index: &GlobalIndex,
) -> (r: Result<ContextOutcome, ContextError>)
    requires
        index.wf(),
        index.projects_map().contains_key(current),
        1 <= pos <= segments@.len(),
    ensures
        ({
            let m = index.projects_map();
            &&& !(r matches Err(ContextError::EmptyContext))
            &&& (r matches Ok(ContextOutcome::Resolved(u, q)) ==> m.contains_key(u))
            &&& (r matches Ok(ContextOutcome::NeedsInput(mach, q)) ==> pause_consistent(m, mach, q)
                && q is LastUsedChild && (exists|k: int|
                pos <= k < segments.deep_view().len() && mach.spec_remaining()
                    == #[trigger] segments.deep_view().skip(k)))
            &&& (siblings_unique(m) ==> resolution_agrees(
                m,
                r,
                spec_step_from(m, current, names.deep_view(), segments.deep_view().skip(pos as int)),
            ))
        }),
{
    let ghost m = index.projects_map();
    let ghost segs_all = segments.deep_view();
    let mut cur_pos = pos;
    let mut current = current;
    let mut names = names;
    let ghost start_state = (current, names.deep_view(), segs_all.skip(cur_pos as int));
    while cur_pos < segments.len()
        invariant
            index.wf(),
            m == index.projects_map(),
            segs_all == segments.deep_view(),
            cur_pos <= segments.len(),
            pos <= cur_pos,
            pos >= 1,
            m.contains_key(current),
            siblings_unique(m) ==> spec_step_from(m, start_state.0, start_state.1, start_state.2)
                == spec_step_from(m, current, names.deep_view(), segs_all.skip(cur_pos as int)),
        decreases segments.len() - cur_pos,
    {
        proof {
            assert(segs_all[cur_pos as int] == segments@[cur_pos as int]@);
            assert(segs_all.skip(cur_pos as int)[0] == segs_all[cur_pos as int]);
            assert(segs_all.skip(cur_pos as int).drop_first() =~= segs_all.skip(cur_pos + 1));
        }
        let seg = &segments[cur_pos];
        if str_eq(seg.as_str(), "**") {
            return Err(ContextError::GlobalRecentNotAtStart);
        } else if str_eq(seg.as_str(), ".") || str_eq(seg.as_str(), "_") {
            return Err(ContextError::LocalPathNotAtStart);
        } else if str_eq(seg.as_str(), "..") {
            let parent = match index.get_entry(current) {
                Some(e) => e.parent,
                None => None,
            };
            match parent {
                None => {
                    return Err(ContextError::AlreadyAtRoot);
                },
                Some(p) => {
                    if !index.contains_project(p) {
                        // a dangling parent pointer: the walk cannot go on
                        return Err(
                            ContextError::Index(
                                crate::index_manager::IndexError::BrokenParentLink {
                                    child_uuid: current,
                                    missing_parent_uuid: p,
                                },
                            ),
                        );
                    }
                    let ghost names_before = names.deep_view();
                    if names.len() > 0 {
                        names.pop();
                    }
                    proof {
                        if names_before.len() > 0 {
                            assert forall|l: int| 0 <= l < names.deep_view().len() implies
                                names.deep_view()[l] == names_before.drop_last()[l] by {}
                            assert(names.deep_view() =~= names_before.drop_last());
                        }
                    }
                    current = p;
                    cur_pos = cur_pos + 1;
                },
            }
        } else if str_eq(seg.as_str(), "*") {
            let parent_path = match index.get_entry(current) {
                Some(e) => e.path.deep_clone(),
                None => {
                    proof {
                        assert(false);
                    }
                    String::new()
                },
            };
            let machine = ContextResolver {
                segments,
                pos: cur_pos,
                current,
                names,
                pending: Pending::Child { parent: current },
            };
            proof {
                assert(machine.spec_remaining() == segs_all.skip(cur_pos as int));
                assert(machine.spec_remaining() == segments.deep_view().skip(cur_pos as int));
            }
            return Ok(
                ContextOutcome::NeedsInput(
                    machine,
                    ContextQuery::LastUsedChild { parent_uuid: current, parent_path },
                ),
            );
        } else {
            let parent_name = match index.get_entry(current) {
                Some(e) => e.name.deep_clone(),
                None => {
                    proof {
                        assert(false);
                    }
                    String::new()
                },
            };
            match index.find_child_by_name(current, seg.as_str()) {
                None => {
                    return Err(ContextError::ChildProjectNotFound {
                        child_name: seg.deep_clone(),
                        parent_name,
                    });
                },
                Some(c) => {
                    proof {
                        if siblings_unique(m) {
                            assert(spec_child(m, current, segs_all[cur_pos as int]) == Some(c));
                        }
                    }
                    let ghost names_before = names.deep_view();
                    match index.get_entry(c) {
                        Some(e) => names.push(e.name.deep_clone()),
                        None => {},
                    }
                    proof {
                        assert(names.deep_view() =~= names_before.push(m[c].name));
                    }
                    current = c;
                    cur_pos = cur_pos + 1;
                },
            }
        }
    }
    proof {
        assert(segs_all.skip(cur_pos as int) =~= Seq::<Seq<char>>::empty());
    }
    let qualified = join_slash(&names);
    Ok(ContextOutcome::Resolved(current, qualified))
}

/// Lists the current children of a parent and pauses on the interactive
/// selection; with no children the distinguished error names the parent.
fn offer_children(
    segments: Vec<String>,
    pos: usize,
    parent: u128,
    names: Vec<String>,
    index: &GlobalIndex,
) -> (r: Result<ContextOutcome, ContextError>)
    requires
        index.wf(),
        pos < segments@.len(),
        segments@[pos as int]@ == "*"@,
    ensures
        fallback_outcome(index.projects_map(), r, parent),
        r matches Ok(ContextOutcome::NeedsInput(mach, q)) ==> mach.spec_names()
            == names.deep_view() && mach.spec_remaining() == segments.deep_view().skip(pos as int),
{
    let ghost m = index.projects_map();
    let parent_name = match index.get_entry(parent) {
        Some(e) => e.name.deep_clone(),
        None => String::new(),
    };
    let child_ids = index.children_of(parent);
    if child_ids.len() == 0 {
        proof {
            if has_children(m, parent) {
                let c = choose|c: u128|
                    m.contains_key(c) && (#[trigger] m[c]).parent == Some(parent);
                assert(child_ids@.contains(c));
                assert(false);
            }
        }
        return Err(ContextError::NoLastUsedChild { parent_name });
    }
    let mut candidates: Vec<String> = Vec::new();
    let mut i: usize = 0;
    while i < child_ids.len()
        invariant
            index.wf(),
            m == index.projects_map(),
            i <= child_ids.len(),
            candidates@.len() == i,
            forall|l: int|
                0 <= l < child_ids@.len() ==> m.contains_key(#[trigger] child_ids@[l])
                    && m[child_ids@[l]].parent == Some(parent),
            forall|l: int|
                0 <= l < i ==> #[trigger] candidates.deep_view()[l] == m[child_ids@[l]].name,
        decreases child_ids.len() - i,
    {
        let ghost before = candidates.deep_view();
        match index.get_entry(child_ids[i]) {
            Some(e) => candidates.push(e.name.deep_clone()),
            None => {
                proof {
                    assert(false);
                }
            },
        }
        proof {
            assert forall|l: int| 0 <= l < candidates.deep_view().len() implies
                #[trigger] candidates.deep_view()[l] == m[child_ids@[l]].name by {
                if l < before.len() {
                    assert(candidates@[l] == candidates@.subrange(0, candidates@.len() - 1)[l]);
                    assert(candidates.deep_view()[l] == before[l]);
                }
            }
        }
        i += 1;
    }
    let query_candidates = candidates.deep_clone();
    let ghost cand_view = candidates.deep_view();
    proof {
        assert(query_candidates.deep_view() =~= cand_view);
        assert(child_ids@.contains(child_ids@[0]));
        assert(has_children(m, parent));
        assert forall|l: int| 0 <= l < cand_view.len() implies has_child_named(
            m,
            Some(parent),
            #[trigger] cand_view[l],
        ) by {
            assert(m.contains_key(child_ids@[l]) && m[child_ids@[l]].parent == Some(parent)
                && m[child_ids@[l]].name == cand_view[l]);
        }
        assert forall|c: u128|
            m.contains_key(c) && (#[trigger] m[c]).parent == Some(parent) implies
            cand_view.contains(m[c].name) by {
            assert(child_ids@.contains(c));
            let l = choose|l: int| 0 <= l < child_ids@.len() && child_ids@[l] == c;
            assert(cand_view[l] == m[c].name);
        }
    }
    let second_parent_name = match index.get_entry(parent) {
        Some(e) => e.name.deep_clone(),
        None => String::new(),
    };
    let machine = ContextResolver {
        segments,
        pos,
        current: parent,
        names,
        pending: Pending::Select { parent, parent_name, candidates },
    };
    Ok(
        ContextOutcome::NeedsInput(
            machine,
            ContextQuery::SelectChild {
                parent_uuid: parent,
                parent_name: second_parent_name,
                candidates: query_candidates,
            },
        ),
    )
}

/// The cache rewrites that follow a successful resolution: for every
/// ancestor of the resolved node, bottom up, the ancestor's project root and
/// the immediate child to record as last used. The caller sets the global
/// `last_used` and writes each listed cache file.
pub open spec fn spec_last_used_updates(
    m: Map<u128, IndexEntryV>,
    x: u128,
    fuel: nat,
) -> Seq<(Seq<char>, u128)>
    decreases fuel,
{
    if !m.contains_key(x) {
        Seq::empty()
    } else {
        match m[x].parent {
            None => Seq::empty(),
            Some(p) => if !m.contains_key(p) || fuel == 0 {
                Seq::empty()
            } else {
                seq![(m[p].path, x)] + spec_last_used_updates(m, p, (fuel - 1) as nat)
            },
        }
    }
}

/// Plans the last-used-child cache rewrites for a resolved identity.
pub fn plan_last_used_updates(final_uuid: u128, index: &GlobalIndex) -> (r: Vec<(String, u128)>)
    requires
        index.wf(),
    ensures
        r.deep_view() == spec_last_used_updates(
            index.projects_map(),
            final_uuid,
            index.kv().len() as nat,
        ),
{
    let fuel = index.project_count();
    plan_updates_from(final_uuid, index, fuel)
}

/// Recursive worker for [`plan_last_used_updates`].
fn plan_updates_from(x: u128, index: &GlobalIndex, fuel: usize) -> (r: Vec<(String, u128)>)
    requires
        index.wf(),
    ensures
        r.deep_view() == spec_last_used_updates(index.projects_map(), x, fuel as nat),
    decreases fuel,
{
    let ghost m = index.projects_map();
    let empty: Vec<(String, u128)> = Vec::new();
    proof {
        assert(empty.deep_view() =~= Seq::<(Seq<char>, u128)>::empty());
    }
    let parent = match index.get_entry(x) {
        Some(e) => e.parent,
        None => {
            return empty;
        },
    };
    match parent {
        None => empty,
        Some(p) => {
            if fuel == 0 {
                return empty;
            }
            match index.get_entry(p) {
                None => empty,
                Some(pe) => {
                    let mut r: Vec<(String, u128)> = Vec::new();
                    r.push((pe.path.deep_clone(), x));
                    let mut rest = plan_updates_from(p, index, fuel - 1);
                    let ghost head = r.deep_view();
                    let ghost tail = rest.deep_view();
                    r.append(&mut rest);
                    proof {
                        assert forall|l: int| 0 <= l < r.deep_view().len() implies r.deep_view()[l]
                            == (head + tail)[l] by {
                            if l < head.len() {
                            } else {
                                assert(r@[l] == r@.skip(head.len() as int)[l - head.len()]);
                            }
                        }
                        assert(r.deep_view() =~= head + tail);
                        assert(head =~= seq![(m[p].path, x)]);
                    }
                    r
                },
            }
        },
    }
}

/// A project name the grammar can address: non-empty, free of the path
/// separators, and none of the reserved tokens (compared without ASCII
/// case, so `GLOBAL` is as reserved as `global`).
pub open spec fn spec_valid_project_name(s: Seq<char>) -> bool {
    &&& s.len() > 0
    &&& (forall|i: int| 0 <= i < s.len() ==> (#[trigger] s[i]) != '/' && s[i] != '\\')
    &&& !spec_str_eq_ci(s, "global"@)
    &&& !spec_str_eq_ci(s, "."@)
    &&& !spec_str_eq_ci(s, ".."@)
    &&& !spec_str_eq_ci(s, "*"@)
    &&& !spec_str_eq_ci(s, "_"@)
    &&& !spec_str_eq_ci(s, "**"@)
}

/// Decides whether a name may be given to a project: renaming to a reserved
/// token or a name with path separators would make the project unaddressable.
pub fn is_valid_project_name(name: &str) -> (r: bool)
    ensures
        r == spec_valid_project_name(name@),
{
    let n = name.unicode_len();
    if n == 0 {
        return false;
    }
    let mut i: usize = 0;
    while i < n
        invariant
            i <= n,
            n == name@.len(),
            forall|j: int| 0 <= j < i ==> (#[trigger] name@[j]) != '/' && name@[j] != '\\',
        decreases n - i,
    {
        let c = name.get_char(i);
        if c == '/' || c == '\\' {
            return false;
        }
        i += 1;
    }
    if eq_ignore_case(name, "global") || eq_ignore_case(name, ".") || eq_ignore_case(name, "..")
        || eq_ignore_case(name, "*") || eq_ignore_case(name, "_") || eq_ignore_case(name, "**") {
        return false;
    }
    true
}

/// Law: a context that names a child and then steps back up with `..`
/// resolves to the same identity as the context without the detour.
pub proof fn lemma_parent_step_roundtrip(
    m: Map<u128, IndexEntryV>,
    last_used: Option<u128>,
    a: Seq<char>,
    b: Seq<char>,
)
    requires
        siblings_unique(m),
        !(b == "**"@ || b == "."@ || b == "_"@ || b == "*"@ || b == ".."@),
        spec_resolve(m, last_used, seq![a]) is Some,
        ({
            let u = (spec_resolve(m, last_used, seq![a])->0).0;
            has_child_named(m, Some(u), b)
        }),
    ensures
        spec_resolve(m, last_used, seq![a, b, ".."@]) is Some,
        (spec_resolve(m, last_used, seq![a, b, ".."@])->0).0 == (spec_resolve(
            m,
            last_used,
            seq![a],
        )->0).0,
{
    reveal_strlit("**");
    reveal_strlit(".");
    reveal_strlit("_");
    reveal_strlit("*");
    reveal_strlit("..");
    assert(".."@.len() == 2);
    assert("."@.len() == 1);
    assert("**"@.len() == 2);
    assert(".."@[0] == '.');
    assert("**"@[0] == '*');
    let segs1 = seq![a];
    let segs3 = seq![a, b, ".."@];
    assert(segs3[0] == a);
    assert(segs1[0] == a);
    let u = (spec_resolve(m, last_used, segs1)->0).0;
    assert(segs1.drop_first() =~= Seq::<Seq<char>>::empty());
    let rest3 = segs3.drop_first();
    assert(rest3 =~= seq![b, ".."@]);
    assert(rest3[0] == b);
    // both contexts start at the same node, whichever first-segment rule applied
    assert(m.contains_key(u) && spec_resolution(m, last_used, segs1) == spec_step_from(
        m,
        u,
        seq![m[u].name],
        segs1.drop_first(),
    ) && spec_resolution(m, last_used, segs3) == spec_step_from(
        m,
        u,
        seq![m[u].name],
        rest3,
    )) by {
        if a == "**"@ {
        } else if a == "."@ || a == "_"@ {
            assert(false);
        } else if a == "global"@ {
        } else {
        }
    }
    let c = spec_child(m, u, b)->0;
    assert(m.contains_key(c) && m[c].parent == Some(u));
    let rest2 = rest3.drop_first();
    assert(rest2 =~= seq![".."@]);
    assert(rest2[0] == ".."@);
    let rest1 = rest2.drop_first();
    assert(rest1 =~= Seq::<Seq<char>>::empty());
    assert(rest2[0] != "**"@ && rest2[0] != "."@ && rest2[0] != "_"@ && rest2[0] != "*"@);
    let names0 = seq![m[u].name];
    assert(names0.push(m[c].name).len() != 0);
    assert(spec_step_from(m, u, names0, rest3) == spec_step_from(
        m,
        c,
        names0.push(m[c].name),
        rest2,
    ));
    assert(spec_step_from(m, c, names0.push(m[c].name), rest2) == spec_step_from(
        m,
        u,
        names0.push(m[c].name).drop_last(),
        rest1,
    ));
    assert(names0.push(m[c].name).drop_last() =~= names0);
}

} // verus!
