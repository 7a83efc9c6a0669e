//! FeatureSet resolution: pin > workspace binding > Space active > deny.
//!
//! The decisions are a state machine: the caller performs each requested
//! lookup (client row, default Space, longest-prefix binding, Space row) and
//! hands the answer back as an event; the machine names the next lookup or
//! the final [`ResolvedFeatureSet`].

use vstd::prelude::*;
use uuid::Uuid;
use crate::package::strings_view;
use crate::session_roots::{opt_strings, SessionRootsRegistry};
use crate::workspace::{binding_pick, find_longest_prefix_binding};

verus! {

#[verifier::external_type_specification]
#[verifier::external_body]
pub struct ExUuid(Uuid);

/// Why the resolver picked the FeatureSet it picked (or none).
#[derive(Debug, Clone, Copy, PartialEq, Eq, Structural)]
pub enum ResolutionSource {
    /// The client's pinned FeatureSet.
    Pin,
    /// A workspace binding matched one of the session's roots.
    WorkspaceBinding,
    /// The Space's active FeatureSet.
    SpaceActive,
    /// Nothing applies.
    Deny,
}

/// Outcome of a resolution.
#[derive(Debug, Clone, Copy)]
pub struct ResolvedFeatureSet {
    /// Chosen FeatureSet, `None` exactly when `source` is `Deny`.
    pub feature_set_id: Option<Uuid>,
    pub source: ResolutionSource,
}

/// What the resolver reads of a client row.
#[derive(Debug, Clone, Copy)]
pub struct ClientPins {
    pub pinned_feature_set_id: Option<Uuid>,
    pub pinned_space_id: Option<Uuid>,
}

/// The next thing the caller must do.
#[derive(Debug)]
pub enum ResolveStep {
    /// Load the client row.
    LoadClient,
    /// Load the default Space (the client pins none).
    LoadDefaultSpace,
    /// Load the workspace bindings of `space_id`; the machine matches them
    /// against `roots` (the session's roots).
    FindBinding { space_id: Uuid, roots: Vec<String> },
    /// Load the Space and read its active FeatureSet.
    LoadSpace { space_id: Uuid },
    /// Resolution is finished.
    Done(ResolvedFeatureSet),
}

/// The answer to a [`ResolveStep`].
#[derive(Debug, Clone)]
pub enum ResolveEvent {
    /// The client row, if the client exists.
    ClientLoaded(Option<ClientPins>),
    /// The default Space's id, if there is one.
    DefaultSpaceLoaded(Option<Uuid>),
    /// The Space's workspace bindings: each binding's root and FeatureSet.
    BindingsLoaded(Vec<(String, Uuid)>),
    /// The Space's active FeatureSet (`None` when the Space is missing or has none).
    SpaceLoaded(Option<Uuid>),
}

/// Whether `event` answers `step`.
pub open spec fn answers(step: ResolveStep, event: ResolveEvent) -> bool {
    match step {
        ResolveStep::LoadClient => event is ClientLoaded,
        ResolveStep::LoadDefaultSpace => event is DefaultSpaceLoaded,
        ResolveStep::FindBinding { .. } => event is BindingsLoaded,
        ResolveStep::LoadSpace { .. } => event is SpaceLoaded,
        ResolveStep::Done(_) => false,
    }
}

/// The roots of the bindings.
pub open spec fn binding_roots_of(bindings: Seq<(String, Uuid)>) -> Seq<Seq<char>> {
    bindings.map_values(|b: (String, Uuid)| b.0@)
}

/// The FeatureSet of the binding chosen for `roots` among `bindings` (see
/// [`binding_pick`]), if any.
pub open spec fn binding_feature_set(bindings: Seq<(String, Uuid)>, roots: Vec<String>) -> Option<Uuid> {
    match binding_pick(binding_roots_of(bindings), roots.deep_view()) {
        Some(k) => Some(bindings[k].1),
        None => None,
    }
}

pub open spec fn finished(source: ResolutionSource, fs: Option<Uuid>) -> ResolveStep {
    ResolveStep::Done(ResolvedFeatureSet { feature_set_id: fs, source })
}

/// Once the Space is known: match the session's roots against its
/// bindings when it reported any, else read the Space's active FeatureSet.
pub open spec fn after_space(roots: Option<Vec<String>>, space_id: Uuid) -> ResolveStep {
    match roots {
        Some(r) if r@.len() > 0 => ResolveStep::FindBinding { space_id, roots: r },
        _ => ResolveStep::LoadSpace { space_id },
    }
}

/// The decision table: the step that follows `step` once `event` answers it.
pub open spec fn next_step(roots: Option<Vec<String>>, step: ResolveStep, event: ResolveEvent) -> ResolveStep {
    match (step, event) {
        (ResolveStep::LoadClient, ResolveEvent::ClientLoaded(client)) => match client {
            None => finished(ResolutionSource::Deny, None),
            Some(c) => match c.pinned_feature_set_id {
                Some(fs) => finished(ResolutionSource::Pin, Some(fs)),
                None => match c.pinned_space_id {
                    Some(space_id) => after_space(roots, space_id),
                    None => ResolveStep::LoadDefaultSpace,
                },
            },
        },
        (ResolveStep::LoadDefaultSpace, ResolveEvent::DefaultSpaceLoaded(space)) => match space {
            None => finished(ResolutionSource::Deny, None),
            Some(space_id) => after_space(roots, space_id),
        },
        (ResolveStep::FindBinding { space_id, roots: r }, ResolveEvent::BindingsLoaded(bindings)) => match binding_feature_set(bindings@, r) {
            Some(fs) => finished(ResolutionSource::WorkspaceBinding, Some(fs)),
            None => ResolveStep::LoadSpace { space_id },
        },
        (ResolveStep::LoadSpace { .. }, ResolveEvent::SpaceLoaded(active)) => match active {
            Some(fs) => finished(ResolutionSource::SpaceActive, Some(fs)),
            None => finished(ResolutionSource::Deny, None),
        },
        _ => step,
    }
}

/// One resolution in progress for a (client, session).
#[derive(Debug)]
pub struct FeatureSetResolution {
    /// The session's roots (pinned root alone when pinned), until they are
    /// handed to a binding lookup.
    pub roots: Option<Vec<String>>,
    /// What the caller must do next.
    pub step: ResolveStep,
}

impl FeatureSetResolution {
    /// Start resolving for `session_id` (stateless callers pass `None`):
    /// the session's roots come from the registry, the first step loads the
    /// client row.
    pub fn start(session_roots: &SessionRootsRegistry, session_id: Option<&str>) -> (r: Self)
        ensures
            r.step is LoadClient,
            match session_id {
                Some(sid) => opt_strings(r.roots) == session_roots.effective_roots(sid@),
                None => r.roots is None,
            },
    {
        let roots = match session_id {
            Some(sid) => session_roots.get(sid),
            None => None,
        };
        FeatureSetResolution { roots, step: ResolveStep::LoadClient }
    }

    fn move_to_space(&mut self, space_id: Uuid)
        ensures
            final(self).step == after_space(old(self).roots, space_id),
    {
        let roots = self.roots.take();
        match roots {
            Some(r) => {
                if r.len() > 0 {
                    self.step = ResolveStep::FindBinding { space_id, roots: r };
                } else {
                    self.roots = Some(r);
                    self.step = ResolveStep::LoadSpace { space_id };
                }
            },
            None => {
                self.step = ResolveStep::LoadSpace { space_id };
            },
        }
    }

    /// Hand back the answer to the current step; the machine moves to the
    /// step the decision table names.
    pub fn advance(&mut self, event: ResolveEvent)
        requires
            answers(old(self).step, event),
        ensures
            final(self).step == next_step(old(self).roots, old(self).step, event),
    {
        let mut step = ResolveStep::LoadClient;
        std::mem::swap(&mut step, &mut self.step);
        match (step, event) {
            (ResolveStep::LoadClient, ResolveEvent::ClientLoaded(client)) => match client {
                None => {
                    self.step = ResolveStep::Done(ResolvedFeatureSet { feature_set_id: None, source: ResolutionSource::Deny });
                },
                Some(c) => match c.pinned_feature_set_id {
                    Some(fs) => {
                        self.step = ResolveStep::Done(ResolvedFeatureSet { feature_set_id: Some(fs), source: ResolutionSource::Pin });
                    },
                    None => match c.pinned_space_id {
                        Some(space_id) => self.move_to_space(space_id),
                        None => {
                            self.step = ResolveStep::LoadDefaultSpace;
                        },
                    },
                },
            },
            (ResolveStep::LoadDefaultSpace, ResolveEvent::DefaultSpaceLoaded(space)) => match space {
                None => {
                    self.step = ResolveStep::Done(ResolvedFeatureSet { feature_set_id: None, source: ResolutionSource::Deny });
                },
                Some(space_id) => self.move_to_space(space_id),
            },
            (ResolveStep::FindBinding { space_id, roots }, ResolveEvent::BindingsLoaded(bindings)) => {
                let mut broots: Vec<String> = Vec::new();
                let mut i: usize = 0;
                while i < bindings.len()
                    invariant
                        i <= bindings@.len(),
                        broots@.len() == i,
                        forall|j: int| 0 <= j < i ==> #[trigger] broots@[j]@ == bindings@[j].0@,
                    decreases bindings.len() - i,
                {
                    broots.push(bindings[i].0.clone());
                    i = i + 1;
                }
                assert(broots.deep_view() =~= binding_roots_of(bindings@));
                match find_longest_prefix_binding(&broots, &roots) {
                    Some(k) => {
                        self.step = ResolveStep::Done(ResolvedFeatureSet { feature_set_id: Some(bindings[k].1), source: ResolutionSource::WorkspaceBinding });
                    },
                    None => {
                        self.step = ResolveStep::LoadSpace { space_id };
                    },
                }
            },
            (ResolveStep::LoadSpace { .. }, ResolveEvent::SpaceLoaded(active)) => match active {
                Some(fs) => {
                    self.step = ResolveStep::Done(ResolvedFeatureSet { feature_set_id: Some(fs), source: ResolutionSource::SpaceActive });
                },
                None => {
                    self.step = ResolveStep::Done(ResolvedFeatureSet { feature_set_id: None, source: ResolutionSource::Deny });
                },
            },
            (step, _) => {
                self.step = step;
            },
        }
    }

    /// The outcome, once the machine is done.
    pub fn outcome(&self) -> (r: Option<ResolvedFeatureSet>)
        ensures
            match self.step {
                ResolveStep::Done(res) => r == Some(res),
                _ => r is None,
            },
    {
        match &self.step {
            ResolveStep::Done(res) => Some(ResolvedFeatureSet { feature_set_id: res.feature_set_id, source: res.source }),
            _ => None,
        }
    }
}

/// A client's pinned FeatureSet wins outright, whatever the session reported.
pub proof fn law_pin_wins(roots: Option<Vec<String>>, client: ClientPins, fs: Uuid)
    requires
        client.pinned_feature_set_id == Some(fs),
    ensures
        next_step(roots, ResolveStep::LoadClient, ResolveEvent::ClientLoaded(Some(client)))
            == finished(ResolutionSource::Pin, Some(fs)),
{
}

/// Without a pin, a session with roots is matched against the Space's
/// bindings before the Space's active FeatureSet is consulted, and a match
/// wins over it.
pub proof fn law_binding_before_space_active(roots: Vec<String>, client: ClientPins, space_id: Uuid, fs: Uuid)
    requires
        client.pinned_feature_set_id is None,
        client.pinned_space_id == Some(space_id),
        roots@.len() > 0,
    ensures
        next_step(Some(roots), ResolveStep::LoadClient, ResolveEvent::ClientLoaded(Some(client)))
            == (ResolveStep::FindBinding { space_id, roots }),
        forall|bindings: Vec<(String, Uuid)>| binding_feature_set(bindings@, roots) == Some(fs) ==>
            next_step(None, ResolveStep::FindBinding { space_id, roots }, ResolveEvent::BindingsLoaded(bindings))
                == finished(ResolutionSource::WorkspaceBinding, Some(fs)),
{
}

/// A session without roots goes straight to the Space's active FeatureSet.
pub proof fn law_rootless_uses_space_active(roots: Option<Vec<String>>, client: ClientPins, space_id: Uuid)
    requires
        client.pinned_feature_set_id is None,
        client.pinned_space_id == Some(space_id),
        match roots {
            Some(r) => r@.len() == 0,
            None => true,
        },
    ensures
        next_step(roots, ResolveStep::LoadClient, ResolveEvent::ClientLoaded(Some(client)))
            == (ResolveStep::LoadSpace { space_id }),
{
}

/// Every finished step carries a FeatureSet exactly when it is not a deny.
pub proof fn law_deny_has_no_feature_set(roots: Option<Vec<String>>, step: ResolveStep, event: ResolveEvent)
    requires
        answers(step, event),
        next_step(roots, step, event) is Done,
    ensures
        ({
            let res = next_step(roots, step, event)->Done_0;
            (res.source == ResolutionSource::Deny) <==> res.feature_set_id is None
        }),
{
}

/// Bindings are consulted in whichever Space the client ends up in: a
/// client with no pinned FeatureSet and no pinned Space loads the default
/// Space, and once the default Space `space_id` is known a session with
/// roots is matched against that Space's bindings, with those roots, before
/// the Space's active FeatureSet is read.
pub proof fn law_default_space_uses_bindings(roots: Vec<String>, client: ClientPins, space_id: Uuid)
    requires
        client.pinned_feature_set_id is None,
        client.pinned_space_id is None,
        roots@.len() > 0,
    ensures
        next_step(Some(roots), ResolveStep::LoadClient, ResolveEvent::ClientLoaded(Some(client)))
            == ResolveStep::LoadDefaultSpace,
        next_step(Some(roots), ResolveStep::LoadDefaultSpace, ResolveEvent::DefaultSpaceLoaded(Some(space_id)))
            == (ResolveStep::FindBinding { space_id, roots }),
        forall|bindings: Vec<(String, Uuid)>, fs: Uuid| binding_feature_set(bindings@, roots) == Some(fs) ==>
            next_step(None, ResolveStep::FindBinding { space_id, roots }, ResolveEvent::BindingsLoaded(bindings))
                == finished(ResolutionSource::WorkspaceBinding, Some(fs)),
{
}

} // verus!
