//! `mcpmux_bind_current_workspace`: which workspace root a bind targets,
//! how the FeatureSet is layered onto an existing binding, and the texts of
//! the approval prompt and the refusals.

use vstd::prelude::*;
use crate::client::{parse_uuid, uuid_text, uuid_value};
use crate::package::strings_view;
use crate::text::{chars_of, concat, decimal, decimal_chars, string_of};
use crate::workspace::{normalize_workspace_root, normalized_root};

verus! {

/// Why a bind has no single target root.
#[derive(Debug, Clone)]
pub enum BindRootError {
    /// The session reported no roots; the window's open folders, if known.
    NoRoots { candidates: Vec<String> },
    /// Several roots were reported and none is pinned.
    Ambiguous { roots: Vec<String> },
}

/// The root a bind targets: the call's explicit root when its hook supplied
/// one, else the session's only root; no roots or several are refused.
pub open spec fn bind_target(explicit: Option<Seq<char>>, roots: Seq<Seq<char>>) -> Option<Seq<char>> {
    match explicit {
        Some(e) => Some(e),
        None => if roots.len() == 1 {
            Some(roots[0])
        } else {
            None
        },
    }
}

/// Pick the root to bind (see [`bind_target`]); a refusal carries what its
/// message lists: the window's folders when no root was reported, the
/// reported roots when there are several.
pub fn select_bind_root(explicit: Option<&str>, roots: &Vec<String>, candidates: &Vec<String>) -> (r: Result<String, BindRootError>)
    ensures
        match bind_target(match explicit { Some(e) => Some(e@), None => None }, strings_view(roots@)) {
            Some(t) => r matches Ok(s) && s@ == t,
            None => match r {
                Err(BindRootError::NoRoots { candidates: c }) => roots@.len() == 0 && strings_view(c@) == strings_view(candidates@),
                Err(BindRootError::Ambiguous { roots: rs }) => roots@.len() > 1 && strings_view(rs@) == strings_view(roots@),
                Ok(_) => false,
            },
        },
{
    match explicit {
        Some(e) => Ok(e.to_owned()),
        None => {
            if roots.len() == 1 {
                Ok(roots[0].clone())
            } else if roots.len() == 0 {
                Err(BindRootError::NoRoots { candidates: copy_strings(candidates) })
            } else {
                Err(BindRootError::Ambiguous { roots: copy_strings(roots) })
            }
        },
    }
}

fn copy_strings(v: &Vec<String>) -> (r: Vec<String>)
    ensures
        strings_view(r@) == strings_view(v@),
{
    let mut out: Vec<String> = Vec::new();
    let mut i: usize = 0;
    while i < v.len()
        invariant
            i <= v@.len(),
            strings_view(out@) == strings_view(v@).take(i as int),
        decreases v.len() - i,
    {
        let ghost before = out@;
        out.push(v[i].clone());
        assert(strings_view(out@) =~= strings_view(before).push(v@[i as int]@));
        assert(strings_view(v@).take(i + 1) =~= strings_view(v@).take(i as int).push(v@[i as int]@));
        i = i + 1;
    }
    assert(strings_view(v@).take(v@.len() as int) =~= strings_view(v@));
    out
}

/// `items` as a bulleted list: each item on its own line after `  - `,
/// lines separated by newlines.
pub open spec fn bullet_list(items: Seq<Seq<char>>) -> Seq<char>
    decreases items.len(),
{
    if items.len() == 0 {
        Seq::empty()
    } else if items.len() == 1 {
        seq![' ', ' ', '-', ' '] + items[0]
    } else {
        bullet_list(items.drop_last()) + seq!['\n', ' ', ' ', '-', ' '] + items.last()
    }
}

fn bullets(items: &Vec<String>) -> (r: Vec<char>)
    ensures
        r@ == bullet_list(strings_view(items@)),
{
    let mut out: Vec<char> = Vec::new();
    let mut i: usize = 0;
    while i < items.len()
        invariant
            i <= items@.len(),
            out@ == bullet_list(strings_view(items@).take(i as int)),
        decreases items.len() - i,
    {
        let ghost t1 = strings_view(items@).take(i + 1);
        assert(t1.drop_last() =~= strings_view(items@).take(i as int));
        assert(t1.last() == items@[i as int]@);
        let sep: Vec<char> = if i == 0 { vec![' ', ' ', '-', ' '] } else { vec!['\n', ' ', ' ', '-', ' '] };
        let mid = concat(&out, &sep);
        out = concat(&mid, &chars_of(items[i].as_str()));
        proof {
            if i == 0 {
                assert(strings_view(items@).take(0).len() == 0);
                assert(t1.len() == 1);
                assert(t1[0] == items@[0]@);
            }
        }
        i = i + 1;
    }
    assert(strings_view(items@).take(items@.len() as int) =~= strings_view(items@));
    out
}

impl BindRootError {
    /// The refusal the agent reads: what went wrong, the folders or roots it
    /// can choose from, and the call that resolves it.
    pub fn message(&self) -> (r: String)
        ensures
            r@ == match self {
                BindRootError::NoRoots { candidates } =>
                    "caller did not report any MCP roots; cannot bind."@
                    + (if candidates@.len() == 0 {
                        Seq::<char>::empty()
                    } else {
                        " This window has these folders open:\n"@ + bullet_list(strings_view(candidates@)) + "\n"@
                    })
                    + " Call mcpmux_set_workspace_root to declare the workspace this agent is actually working in, then retry mcpmux_bind_current_workspace."@,
                BindRootError::Ambiguous { roots } =>
                    "cannot bind: "@ + decimal(roots@.len()) + " workspace roots reported and none is pinned, so which folder to mutate is ambiguous. Reported roots:\n"@
                    + bullet_list(strings_view(roots@))
                    + "\nCall mcpmux_set_workspace_root with exactly one of those paths (the workspace this agent is actually working in), then retry mcpmux_bind_current_workspace with the same feature_set_id. A correct X-Mcpmux-Workspace header pin also collapses this."@,
            },
    {
        match self {
            BindRootError::NoRoots { candidates } => {
                let head = chars_of("caller did not report any MCP roots; cannot bind.");
                let known: Vec<char> = if candidates.len() == 0 {
                    Vec::new()
                } else {
                    let a = chars_of(" This window has these folders open:\n");
                    let b = concat(&a, &bullets(candidates));
                    concat(&b, &chars_of("\n"))
                };
                let tail = chars_of(" Call mcpmux_set_workspace_root to declare the workspace this agent is actually working in, then retry mcpmux_bind_current_workspace.");
                let ab = concat(&head, &known);
                string_of(&concat(&ab, &tail))
            },
            BindRootError::Ambiguous { roots } => {
                let a = chars_of("cannot bind: ");
                let n = decimal_chars(roots.len() as u64);
                let b = chars_of(" workspace roots reported and none is pinned, so which folder to mutate is ambiguous. Reported roots:\n");
                let c = bullets(roots);
                let d = chars_of("\nCall mcpmux_set_workspace_root with exactly one of those paths (the workspace this agent is actually working in), then retry mcpmux_bind_current_workspace with the same feature_set_id. A correct X-Mcpmux-Workspace header pin also collapses this.");
                let an = concat(&a, &n);
                let anb = concat(&an, &b);
                let anbc = concat(&anb, &c);
                string_of(&concat(&anbc, &d))
            },
        }
    }
}

/// Layer `fs_id` onto a binding's FeatureSets: appended when absent.
/// Returns whether it was already bound (the list is then unchanged).
pub fn layer_feature_set(feature_set_ids: &mut Vec<String>, fs_id: &str) -> (already_bound: bool)
    ensures
        already_bound == strings_view(old(feature_set_ids)@).contains(fs_id@),
        already_bound ==> final(feature_set_ids)@ == old(feature_set_ids)@,
        !already_bound ==> strings_view(final(feature_set_ids)@) == strings_view(old(feature_set_ids)@).push(fs_id@),
{
    let target = fs_id.to_owned();
    let mut i: usize = 0;
    while i < feature_set_ids.len()
        invariant
            i <= feature_set_ids@.len(),
            target@ == fs_id@,
            feature_set_ids@ == old(feature_set_ids)@,
            forall|k: int| 0 <= k < i ==> feature_set_ids@[k]@ != fs_id@,
        decreases feature_set_ids.len() - i,
    {
        if feature_set_ids[i] == target {
            assert(strings_view(feature_set_ids@)[i as int] == fs_id@);
            return true;
        }
        i = i + 1;
    }
    proof {
        if strings_view(feature_set_ids@).contains(fs_id@) {
            let k = choose|k: int| 0 <= k < feature_set_ids@.len() && strings_view(feature_set_ids@)[k] == fs_id@;
            assert(feature_set_ids@[k]@ == fs_id@);
        }
    }
    let ghost before = feature_set_ids@;
    feature_set_ids.push(target);
    assert(strings_view(feature_set_ids@) =~= strings_view(before).push(fs_id@));
    false
}

/// Whether a binding already carries `fs_id` (a repeat bind needs no approval).
pub fn binding_has_feature_set(feature_set_ids: &Vec<String>, fs_id: &str) -> (b: bool)
    ensures
        b == strings_view(feature_set_ids@).contains(fs_id@),
{
    let mut copy = copy_strings(feature_set_ids);
    layer_feature_set(&mut copy, fs_id)
}

/// The approval prompt of a bind: the FeatureSet, the root, and whose
/// binding it changes (the machine's when known, else the client's).
pub fn bind_approval_summary(fs_name: &str, root: &str, machine_id: Option<&str>, client_id: &str) -> (r: String)
    ensures
        r@ == "Append FeatureSet '"@ + fs_name@ + "' to workspace '"@ + root@ + match machine_id {
            Some(m) => "' binding for machine '"@ + m@,
            None => "' binding for client '"@ + client_id@,
        } + "' (existing bundles preserved)."@,
{
    let a = concat(&chars_of("Append FeatureSet '"), &chars_of(fs_name));
    let b = concat(&a, &chars_of("' to workspace '"));
    let c = concat(&b, &chars_of(root));
    let d = match machine_id {
        Some(m) => concat(&chars_of("' binding for machine '"), &chars_of(m)),
        None => concat(&chars_of("' binding for client '"), &chars_of(client_id)),
    };
    let cd = concat(&c, &d);
    string_of(&concat(&cd, &chars_of("' (existing bundles preserved).")))
}

/// The refusal of a bind naming a FeatureSet that does not exist.
pub fn unknown_feature_set_message(fs_id: &str) -> (r: String)
    ensures
        r@ == "feature_set_id '"@ + fs_id@ + "' does not exist — call mcpmux_list_feature_sets to obtain a valid id"@,
{
    let a = concat(&chars_of("feature_set_id '"), &chars_of(fs_id));
    string_of(&concat(&a, &chars_of("' does not exist — call mcpmux_list_feature_sets to obtain a valid id")))
}

/// The note of a bind whose FeatureSet is not active for the session after
/// the write (`None` when it is active).
pub fn bind_inactive_note(active: bool) -> (r: Option<String>)
    ensures
        active ==> r is None,
        !active ==> (r matches Some(n) && n@ == "binding persisted but FeatureSet is not active for this session — verify machine identity (Settings → Machine Identity) and X-Mcpmux-Machine-Id on tunneled clients"@),
{
    if active {
        None
    } else {
        Some("binding persisted but FeatureSet is not active for this session — verify machine identity (Settings → Machine Identity) and X-Mcpmux-Machine-Id on tunneled clients".to_owned())
    }
}

/// Binding again a FeatureSet already layered changes nothing; layering a
/// new one keeps every earlier FeatureSet.
pub proof fn law_layering_keeps_bundles(ids: Seq<Seq<char>>, fs: Seq<char>)
    ensures
        ids.contains(fs) ==> (if ids.contains(fs) { ids } else { ids.push(fs) }) == ids,
        forall|x: Seq<char>| #[trigger] ids.contains(x) ==> (if ids.contains(fs) { ids } else { ids.push(fs) }).contains(x),
        (if ids.contains(fs) { ids } else { ids.push(fs) }).contains(fs),
{
    assert forall|x: Seq<char>| #[trigger] ids.contains(x) implies (if ids.contains(fs) { ids } else { ids.push(fs) }).contains(x) by {
        if !ids.contains(fs) {
            let i = choose|i: int| 0 <= i < ids.len() && ids[i] == x;
            assert(ids.push(fs)[i] == x);
        }
    }
    if !ids.contains(fs) {
        assert(ids.push(fs)[ids.len() as int] == fs);
    }
}

/// `ids` with `fs` layered on: unchanged when already there, else appended.
pub open spec fn layered(ids: Seq<Seq<char>>, fs: Seq<char>) -> Seq<Seq<char>> {
    if ids.contains(fs) {
        ids
    } else {
        ids.push(fs)
    }
}

/// How a bind stores its binding.
#[derive(Debug, Clone, Copy, PartialEq, Eq, Structural)]
pub enum BindStore {
    /// The binding already carries the FeatureSet: nothing is written.
    Keep,
    /// The FeatureSet is appended to the existing binding.
    Update,
    /// A new binding scoped to the caller's machine.
    CreateForMachine,
    /// A new binding scoped to the calling client.
    CreateForClient,
}

/// The FeatureSets of the binding after a bind of `fs`, given those of the
/// binding found for the root (if any).
pub open spec fn bound_ids(existing: Option<Seq<Seq<char>>>, fs: Seq<char>) -> Seq<Seq<char>> {
    match existing {
        Some(ids) => layered(ids, fs),
        None => seq![fs],
    }
}

/// How a bind of `fs` stores its binding: an existing binding is kept or
/// updated; otherwise one is created for the machine when the bind has one,
/// else for the client.
pub open spec fn bind_store(existing: Option<Seq<Seq<char>>>, fs: Seq<char>, machine_scoped: bool) -> BindStore {
    match existing {
        Some(ids) => if ids.contains(fs) { BindStore::Keep } else { BindStore::Update },
        None => if machine_scoped { BindStore::CreateForMachine } else { BindStore::CreateForClient },
    }
}

/// A repeat bind: the binding found for the root already carries `fs`.
pub open spec fn already_bound(existing: Option<Seq<Seq<char>>>, fs: Seq<char>) -> bool {
    existing matches Some(ids) && ids.contains(fs)
}

/// What a bind does once approved.
#[derive(Debug, Clone)]
pub struct BindPlan {
    pub store: BindStore,
    /// The binding's FeatureSets afterwards.
    pub feature_set_ids: Vec<String>,
    pub already_bound: bool,
    /// Whether workspace-binding-changed and tools-list-changed are announced.
    pub announce: bool,
}

/// The view of an optional FeatureSet list.
pub open spec fn opt_ids(existing: Option<Vec<String>>) -> Option<Seq<Seq<char>>> {
    match existing {
        Some(v) => Some(strings_view(v@)),
        None => None,
    }
}

/// Whether a bind skips the approval prompt: the binding found for the root
/// already carries the FeatureSet, so the bind reports it as already bound.
pub fn bind_skips_approval(existing: Option<&Vec<String>>, fs_id: &str) -> (b: bool)
    ensures
        b == already_bound(match existing { Some(v) => Some(strings_view(v@)), None => None }, fs_id@),
{
    match existing {
        Some(ids) => binding_has_feature_set(ids, fs_id),
        None => false,
    }
}

/// Plan an approved bind of `fs_id` (see [`bind_store`] and [`bound_ids`]):
/// the change is announced exactly when the FeatureSet was not bound yet.
pub fn plan_bind(existing: Option<Vec<String>>, fs_id: &str, machine_scoped: bool) -> (p: BindPlan)
    ensures
        p.store == bind_store(opt_ids(existing), fs_id@, machine_scoped),
        strings_view(p.feature_set_ids@) == bound_ids(opt_ids(existing), fs_id@),
        p.already_bound == already_bound(opt_ids(existing), fs_id@),
        p.announce == !p.already_bound,
{
    match existing {
        Some(ids) => {
            let mut ids = ids;
            let was = layer_feature_set(&mut ids, fs_id);
            BindPlan { store: if was { BindStore::Keep } else { BindStore::Update }, feature_set_ids: ids, already_bound: was, announce: !was }
        },
        None => {
            let ids = vec![fs_id.to_owned()];
            assert(strings_view(ids@) =~= seq![fs_id@]);
            BindPlan {
                store: if machine_scoped { BindStore::CreateForMachine } else { BindStore::CreateForClient },
                feature_set_ids: ids,
                already_bound: false,
                announce: true,
            }
        },
    }
}

/// Binding a workspace is idempotent: after a bind of `fs`, the binding
/// carries it, so an identical second bind skips approval, writes nothing,
/// announces nothing and leaves the FeatureSets as they were, whichever
/// binding (or none) the first bind found.
pub proof fn law_rebind_is_idempotent(existing: Option<Seq<Seq<char>>>, fs: Seq<char>, machine_scoped: bool)
    ensures
        already_bound(Some(bound_ids(existing, fs)), fs),
        bind_store(Some(bound_ids(existing, fs)), fs, machine_scoped) == BindStore::Keep,
        bound_ids(Some(bound_ids(existing, fs)), fs) == bound_ids(existing, fs),
{
    let ids = bound_ids(existing, fs);
    match existing {
        Some(e) => {
            if !e.contains(fs) {
                assert(e.push(fs)[e.len() as int] == fs);
            }
        },
        None => {
            assert(seq![fs][0] == fs);
        },
    }
    assert(ids.contains(fs));
}

/// How a bind call ends.
#[derive(Debug, Clone)]
pub enum BindOutcome {
    /// `feature_set_id` is not a UUID: refused before anything else.
    InvalidFeatureSetId,
    /// No single root to bind: refused before the FeatureSet is looked up.
    NoRoot(BindRootError),
    /// The FeatureSet does not exist: refused before approval.
    UnknownFeatureSet,
    /// The binding already carries the FeatureSet: reported without asking
    /// for approval and without writing; its FeatureSets.
    AlreadyBound { feature_set_ids: Vec<String> },
    /// The user denied the bind: nothing is written.
    Denied,
    /// The bind was written as planned.
    Bound(BindPlan),
}

/// The next thing the caller of a bind must do.
#[derive(Debug, Clone)]
pub enum BindStep {
    /// Look the FeatureSet up (its name, if it exists).
    LoadFeatureSet,
    /// Find the binding for the root, before asking for consent.
    FindExisting,
    /// Ask the user to approve (see [`BindFlow::approval_summary`]).
    AskApproval,
    /// Approved: find the binding for the root again, as it is now.
    FindExistingApproved,
    /// Store the binding as planned, announcing when the plan says so.
    Apply(BindPlan),
    /// The call is over.
    Done(BindOutcome),
}

/// The answer to a [`BindStep`].
#[derive(Debug, Clone)]
pub enum BindEvent {
    /// The FeatureSet's name, or `None` when it does not exist.
    FeatureSetLoaded(Option<String>),
    /// The FeatureSets of the binding found for the root, if any.
    ExistingLoaded(Option<Vec<String>>),
    /// Whether the user approved.
    Approval(bool),
    /// The planned write is done.
    Written,
}

/// Whether `event` answers `step`.
pub open spec fn bind_answers(step: BindStep, event: BindEvent) -> bool {
    match step {
        BindStep::LoadFeatureSet => event is FeatureSetLoaded,
        BindStep::FindExisting => event is ExistingLoaded,
        BindStep::AskApproval => event is Approval,
        BindStep::FindExistingApproved => event is ExistingLoaded,
        BindStep::Apply(_) => event is Written,
        BindStep::Done(_) => false,
    }
}

/// `p` is the plan of an approved bind of `fs` (see [`plan_bind`]).
pub open spec fn is_plan(p: BindPlan, existing: Option<Seq<Seq<char>>>, fs: Seq<char>, machine_scoped: bool) -> bool {
    &&& p.store == bind_store(existing, fs, machine_scoped)
    &&& strings_view(p.feature_set_ids@) == bound_ids(existing, fs)
    &&& p.already_bound == already_bound(existing, fs)
    &&& p.announce == !p.already_bound
}

/// One `mcpmux_bind_current_workspace` call in progress.
#[derive(Debug, Clone)]
pub struct BindFlow {
    /// The root to bind, normalized.
    pub root: String,
    pub fs_id: String,
    /// The bind is for the caller's machine (else for the client).
    pub machine_scoped: bool,
    /// The FeatureSet's name, once loaded.
    pub fs_name: Option<String>,
    pub step: BindStep,
}

/// The step that follows `step` on `event`, for a bind of `fs`.
pub open spec fn bind_follows(step: BindStep, event: BindEvent, fs: Seq<char>, machine_scoped: bool, next: BindStep) -> bool {
    match (step, event) {
        (BindStep::LoadFeatureSet, BindEvent::FeatureSetLoaded(name)) => match name {
            None => next == BindStep::Done(BindOutcome::UnknownFeatureSet),
            Some(_) => next == BindStep::FindExisting,
        },
        (BindStep::FindExisting, BindEvent::ExistingLoaded(e)) => if already_bound(opt_ids(e), fs) {
            next == BindStep::Done(BindOutcome::AlreadyBound { feature_set_ids: e->0 })
        } else {
            next == BindStep::AskApproval
        },
        (BindStep::AskApproval, BindEvent::Approval(ok)) => if ok {
            next == BindStep::FindExistingApproved
        } else {
            next == BindStep::Done(BindOutcome::Denied)
        },
        (BindStep::FindExistingApproved, BindEvent::ExistingLoaded(e)) =>
            next matches BindStep::Apply(p) && is_plan(p, opt_ids(e), fs, machine_scoped),
        (BindStep::Apply(p), BindEvent::Written) => next == BindStep::Done(BindOutcome::Bound(p)),
        _ => next == step,
    }
}

impl BindFlow {
    /// Start a bind of `fs_id`: an id that is not a UUID is refused at once;
    /// otherwise the id is kept in its canonical (hyphenated lowercase) form,
    /// the root comes from [`select_bind_root`] and is normalized, and
    /// without one the call is refused.
    pub fn start(
        explicit: Option<&str>,
        roots: &Vec<String>,
        candidates: &Vec<String>,
        fs_id: &str,
        machine_scoped: bool,
    ) -> (r: Self)
        ensures
            r.machine_scoped == machine_scoped,
            r.fs_name is None,
            match uuid_value(fs_id@) {
                None => r.step matches BindStep::Done(BindOutcome::InvalidFeatureSetId),
                Some(id) => uuid_value(r.fs_id@) == Some(id) && r.fs_id@.len() == 36
                    && match bind_target(match explicit { Some(e) => Some(e@), None => None }, strings_view(roots@)) {
                    Some(t) => r.root@ == normalized_root(t) && r.step is LoadFeatureSet,
                    None => match r.step {
                        BindStep::Done(BindOutcome::NoRoot(BindRootError::NoRoots { candidates: c })) =>
                            roots@.len() == 0 && strings_view(c@) == strings_view(candidates@),
                        BindStep::Done(BindOutcome::NoRoot(BindRootError::Ambiguous { roots: rs })) =>
                            roots@.len() > 1 && strings_view(rs@) == strings_view(roots@),
                        _ => false,
                    },
                },
            },
    {
        let id = match parse_uuid(fs_id) {
            Some(id) => id,
            None => {
                return BindFlow {
                    root: String::new(),
                    fs_id: fs_id.to_owned(),
                    machine_scoped,
                    fs_name: None,
                    step: BindStep::Done(BindOutcome::InvalidFeatureSetId),
                };
            },
        };
        let fs_id = uuid_text(id);
        match select_bind_root(explicit, roots, candidates) {
            Ok(root) => BindFlow {
                root: normalize_workspace_root(root.as_str()),
                fs_id: fs_id.clone(),
                machine_scoped,
                fs_name: None,
                step: BindStep::LoadFeatureSet,
            },
            Err(e) => BindFlow {
                root: String::new(),
                fs_id,
                machine_scoped,
                fs_name: None,
                step: BindStep::Done(BindOutcome::NoRoot(e)),
            },
        }
    }

    /// Hand back the answer to the current step (see [`bind_follows`]).
    pub fn advance(&mut self, event: BindEvent)
        requires
            bind_answers(old(self).step, event),
        ensures
            bind_follows(old(self).step, event, old(self).fs_id@, old(self).machine_scoped, final(self).step),
            final(self).root == old(self).root,
            final(self).fs_id == old(self).fs_id,
            final(self).machine_scoped == old(self).machine_scoped,
            match (old(self).step, event) {
                (BindStep::LoadFeatureSet, BindEvent::FeatureSetLoaded(name)) => final(self).fs_name == name,
                _ => final(self).fs_name == old(self).fs_name,
            },
    {
        let mut step = BindStep::LoadFeatureSet;
        std::mem::swap(&mut step, &mut self.step);
        match (step, event) {
            (BindStep::LoadFeatureSet, BindEvent::FeatureSetLoaded(name)) => {
                self.step = if name.is_some() { BindStep::FindExisting } else { BindStep::Done(BindOutcome::UnknownFeatureSet) };
                self.fs_name = name;
            },
            (BindStep::FindExisting, BindEvent::ExistingLoaded(e)) => {
                if bind_skips_approval(e.as_ref(), self.fs_id.as_str()) {
                    match e {
                        Some(ids) => {
                            self.step = BindStep::Done(BindOutcome::AlreadyBound { feature_set_ids: ids });
                        },
                        None => {
                            self.step = BindStep::AskApproval;
                        },
                    }
                } else {
                    self.step = BindStep::AskApproval;
                }
            },
            (BindStep::AskApproval, BindEvent::Approval(ok)) => {
                self.step = if ok { BindStep::FindExistingApproved } else { BindStep::Done(BindOutcome::Denied) };
            },
            (BindStep::FindExistingApproved, BindEvent::ExistingLoaded(e)) => {
                let p = plan_bind(e, self.fs_id.as_str(), self.machine_scoped);
                self.step = BindStep::Apply(p);
            },
            (BindStep::Apply(p), BindEvent::Written) => {
                self.step = BindStep::Done(BindOutcome::Bound(p));
            },
            (step, _) => {
                self.step = step;
            },
        }
    }

    /// The approval prompt: the FeatureSet's name (its id until loaded),
    /// the root, and who the binding is for.
    pub fn approval_summary(&self, machine_id: Option<&str>, client_id: &str) -> (r: String)
        ensures
            r@ == "Append FeatureSet '"@ + (match self.fs_name { Some(n) => n@, None => self.fs_id@ }) + "' to workspace '"@
                + self.root@ + match machine_id {
                    Some(m) => "' binding for machine '"@ + m@,
                    None => "' binding for client '"@ + client_id@,
                } + "' (existing bundles preserved)."@,
    {
        let name = match &self.fs_name {
            Some(n) => n.as_str(),
            None => self.fs_id.as_str(),
        };
        bind_approval_summary(name, self.root.as_str(), machine_id, client_id)
    }
}

/// Consent comes after the checks and before any write: a missing root or
/// FeatureSet is refused without asking, a repeat bind is answered without
/// asking, a denial writes nothing, and only an approved bind reaches a
/// write.
pub proof fn law_bind_consent_order(step: BindStep, event: BindEvent, fs: Seq<char>, machine_scoped: bool, next: BindStep)
    requires
        bind_answers(step, event),
        bind_follows(step, event, fs, machine_scoped, next),
    ensures
        step is LoadFeatureSet ==> !(next is AskApproval) && !(next is Apply),
        step is FindExisting ==> !(next is Apply),
        (step is FindExisting && (event matches BindEvent::ExistingLoaded(e) && already_bound(opt_ids(e), fs)))
            ==> next is Done,
        (step is AskApproval && event == BindEvent::Approval(false)) ==> next == BindStep::Done(BindOutcome::Denied),
        next is Apply ==> step is FindExistingApproved,
{
}

} // verus!
