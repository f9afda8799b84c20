//! Backend routing: pick the cheapest backend that satisfies the risk floor and
//! compatibility needs.
//!
//! 1. A [`RiskTier`] maps to a minimum isolation strength (the "floor"). The
//!    floor is a hard requirement: nothing (in particular no intent hint) can
//!    lower it.
//! 2. A candidate backend must additionally satisfy every set flag in [`Needs`]
//!    and, when `replay_at_least` is set, advertise a replay class at least that
//!    strong.
//! 3. Among the satisfying candidates, the cheapest wins, by the cost model
//!    `cost = cold_start_ms + 10 * isolation_strength` (stronger isolation
//!    carries per-step overhead). Ties break lexicographically on the backend
//!    name, so routing is fully deterministic.
//! 4. If no backend satisfies the requirements the router returns
//!    [`KernelError::BackendUnavailable`].
use vstd::prelude::*;
use crate::error::{KernelError, KernelResult};
use crate::replay::ReplayClass;
use crate::text;
use crate::traits::BackendProfile;

verus! {

/// Risk tier of a step, decided by policy, never by the agent's own hints.
#[derive(Debug, Clone, Copy, PartialEq, Eq, Structural)]
pub enum RiskTier {
    Low,
    Medium,
    High,
}

impl RiskTier {
    /// Minimum `isolation_strength` a backend must advertise for this tier.
    pub open spec fn floor(self) -> u8 {
        match self {
            RiskTier::Low => 20,
            RiskTier::Medium => 60,
            RiskTier::High => 85,
        }
    }

    /// Minimum `isolation_strength` a backend must advertise for this tier.
    pub fn isolation_floor(self) -> (r: u8)
        ensures
            r == self.floor(),
    {
        match self {
            RiskTier::Low => 20,
            RiskTier::Medium => 60,
            RiskTier::High => 85,
        }
    }
}

/// Compatibility requirements of a request. All default to "don't care".
#[derive(Debug, Clone, Copy, PartialEq, Structural)]
pub struct Needs {
    /// Requires arbitrary Linux binaries to run.
    pub full_linux: bool,
    /// Requires a GUI/browser surface.
    pub gui: bool,
    /// Requires native CoW fork for branch fan-out.
    pub fork: bool,
    /// Requires a backend that shares the kernel workspace or syncs state back.
    pub workspace: bool,
    /// Requires at least this replay guarantee.
    pub replay_at_least: Option<ReplayClass>,
}

impl Default for Needs {
    fn default() -> (r: Self)
        ensures
            r == (Needs {
                full_linux: false,
                gui: false,
                fork: false,
                workspace: false,
                replay_at_least: None,
            }),
    {
        Needs {
            full_linux: false,
            gui: false,
            fork: false,
            workspace: false,
            replay_at_least: None,
        }
    }
}

impl Needs {
    /// A backend meets the needs.
    pub open spec fn met_by(self, p: BackendProfile) -> bool {
        &&& self.full_linux ==> p.full_linux
        &&& self.gui ==> p.supports_gui
        &&& self.fork ==> p.supports_fork
        &&& self.workspace ==> p.shares_workspace || p.syncs_state
        &&& self.replay_at_least matches Some(c) ==> c.spec_rank() <= p.replay_class.spec_rank()
    }
}

/// A backend may run a step: its isolation reaches the floor and it meets the
/// needs.
pub open spec fn eligible(p: BackendProfile, risk: RiskTier, needs: Needs) -> bool {
    p.isolation_strength >= risk.floor() && needs.met_by(p)
}

/// What a backend costs.
pub open spec fn cost_of(p: BackendProfile) -> int {
    p.cold_start_ms + 10 * p.isolation_strength
}

/// One backend is preferred to another: it is cheaper or, at the same cost, its
/// name comes first.
pub open spec fn preferred(a: BackendProfile, b: BackendProfile) -> bool {
    cost_of(a) < cost_of(b) || (cost_of(a) == cost_of(b) && text::lt(a.name@, b.name@))
}

/// The backend at `i` may run the step, and none that may is preferred to it.
pub open spec fn chosen(
    profiles: Seq<BackendProfile>,
    risk: RiskTier,
    needs: Needs,
    i: int,
) -> bool {
    &&& 0 <= i < profiles.len()
    &&& eligible(profiles[i], risk, needs)
    &&& forall|j: int|
        0 <= j < profiles.len() && eligible(#[trigger] profiles[j], risk, needs) ==> !preferred(
            profiles[j],
            profiles[i],
        )
}

/// The registered backends.
#[derive(Debug)]
pub struct BackendRouter {
    profiles: Vec<BackendProfile>,
}

impl BackendRouter {
    /// The profiles of the registered backends, in order of registration.
    pub closed spec fn view(&self) -> Seq<BackendProfile> {
        self.profiles@
    }

    /// A router without backends.
    pub fn new() -> (r: Self)
        ensures
            r@ == Seq::<BackendProfile>::empty(),
    {
        BackendRouter { profiles: Vec::new() }
    }

    /// Register a backend.
    pub fn register(&mut self, profile: BackendProfile)
        ensures
            final(self)@ == old(self)@.push(profile),
    {
        self.profiles.push(profile);
    }

    /// Profiles of every registered backend.
    pub fn profiles(&self) -> (r: &Vec<BackendProfile>)
        ensures
            r@ == self@,
    {
        &self.profiles
    }

    /// What a backend costs.
    pub fn cost(p: &BackendProfile) -> (r: u128)
        ensures
            r == cost_of(*p),
    {
        p.cold_start_ms as u128 + 10 * (p.isolation_strength as u128)
    }

    fn is_eligible(p: &BackendProfile, risk: RiskTier, needs: &Needs) -> (r: bool)
        ensures
            r == eligible(*p, risk, *needs),
    {
        let replay = match needs.replay_at_least {
            Some(c) => c.rank() <= p.replay_class.rank(),
            None => true,
        };
        p.isolation_strength >= risk.isolation_floor() && (!needs.full_linux || p.full_linux) && (
        !needs.gui || p.supports_gui) && (!needs.fork || p.supports_fork) && (!needs.workspace
            || p.shares_workspace || p.syncs_state) && replay
    }

    fn is_preferred(a: &BackendProfile, b: &BackendProfile) -> (r: bool)
        ensures
            r == preferred(*a, *b),
    {
        let ca = Self::cost(a);
        let cb = Self::cost(b);
        ca < cb || (ca == cb && text::less(a.name.as_str(), b.name.as_str()))
    }

    /// The backend that a step is routed to, by its place in the order of
    /// registration. The error names the router.
    pub fn route(&self, risk: RiskTier, needs: &Needs) -> (r: KernelResult<usize>)
        ensures
            match r {
                Ok(i) => chosen(self@, risk, *needs, i as int),
                Err(e) => {
                    &&& forall|j: int|
                        0 <= j < self@.len() ==> !eligible(#[trigger] self@[j], risk, *needs)
                    &&& routing_error(e)
                },
            },
    {
        let mut best: Option<usize> = None;
        let mut i: usize = 0;
        while i < self.profiles.len()
            invariant
                i <= self.profiles.len(),
                match best {
                    None => forall|j: int|
                        0 <= j < i ==> !eligible(#[trigger] self.profiles@[j], risk, *needs),
                    Some(b) => {
                        &&& b < i
                        &&& eligible(self.profiles@[b as int], risk, *needs)
                        &&& forall|j: int|
                            0 <= j < i && eligible(#[trigger] self.profiles@[j], risk, *needs)
                                ==> !preferred(self.profiles@[j], self.profiles@[b as int])
                    },
                },
            decreases self.profiles.len() - i,
        {
            if Self::is_eligible(&self.profiles[i], risk, needs) {
                match best {
                    None => {
                        proof {
                            text::lemma_lt_irreflexive(self.profiles@[i as int].name@);
                        }
                        best = Some(i);
                    },
                    Some(b) => {
                        if Self::is_preferred(&self.profiles[i], &self.profiles[b]) {
                            proof {
                                let ps = self.profiles@;
                                text::lemma_lt_irreflexive(ps[i as int].name@);
                                assert forall|j: int|
                                    0 <= j < i + 1 && eligible(#[trigger] ps[j], risk, *needs) implies !preferred(
                                    ps[j],
                                    ps[i as int],
                                ) by {
                                    if j < i && preferred(ps[j], ps[i as int]) {
                                        lemma_preferred_transitive(
                                            ps[j],
                                            ps[i as int],
                                            ps[b as int],
                                        );
                                    }
                                }
                            }
                            best = Some(i);
                        }
                    },
                }
            }
            i = i + 1;
        }
        match best {
            Some(b) => Ok(b),
            None => Err(
                KernelError::BackendUnavailable {
                    backend: "router".to_owned(),
                    reason:
                        "no registered backend satisfies the isolation floor and compatibility needs".to_owned(),
                },
            ),
        }
    }
}

/// The error for a step that no backend may run.
pub open spec fn routing_error(e: KernelError) -> bool {
    e matches KernelError::BackendUnavailable { backend, reason } && backend@ == "router"@
        && reason@
        == "no registered backend satisfies the isolation floor and compatibility needs"@
}

proof fn lemma_preferred_transitive(a: BackendProfile, b: BackendProfile, c: BackendProfile)
    requires
        preferred(a, b),
        preferred(b, c),
    ensures
        preferred(a, c),
{
    if cost_of(a) == cost_of(b) && cost_of(b) == cost_of(c) {
        text::lemma_lt_transitive(a.name@, b.name@, c.name@);
    }
}

/// Whatever backend is chosen reaches the floor of the risk tier: nothing can
/// lower it.
pub proof fn law_floor_is_never_lowered(
    profiles: Seq<BackendProfile>,
    risk: RiskTier,
    needs: Needs,
    i: int,
)
    requires
        chosen(profiles, risk, needs, i),
    ensures
        profiles[i].isolation_strength >= risk.floor(),
        needs.met_by(profiles[i]),
{
}

/// The order of registration does not affect routing: of any two lists of the
/// same backends, the chosen backends have the same cost and name.
pub proof fn law_registration_order_does_not_matter(
    a: Seq<BackendProfile>,
    b: Seq<BackendProfile>,
    risk: RiskTier,
    needs: Needs,
    i: int,
    j: int,
)
    requires
        chosen(a, risk, needs, i),
        chosen(b, risk, needs, j),
        forall|p: BackendProfile| #[trigger] a.contains(p) <==> b.contains(p),
    ensures
        cost_of(a[i]) == cost_of(b[j]),
        a[i].name@ == b[j].name@,
{
    assert(a.contains(a[i]) && b.contains(b[j]));
    assert(b.contains(a[i]) && a.contains(b[j]));
    let bi = b.index_of(a[i]);
    let aj = a.index_of(b[j]);
    assert(b[bi] == a[i]);
    assert(a[aj] == b[j]);
    assert(!preferred(a[i], b[j]));
    assert(!preferred(b[j], a[i]));
    text::lemma_lt_total(a[i].name@, b[j].name@);
}

/// A stronger tier admits no backend that a weaker one refuses.
pub proof fn law_tiers_are_ordered(p: BackendProfile, needs: Needs)
    ensures
        eligible(p, RiskTier::High, needs) ==> eligible(p, RiskTier::Medium, needs),
        eligible(p, RiskTier::Medium, needs) ==> eligible(p, RiskTier::Low, needs),
{
}

/// No backend that may run the step is cheaper than the chosen one, where a backend
/// costs its cold start in milliseconds and ten times its isolation strength; at the
/// same cost, none has a name that comes before.
pub proof fn law_chosen_backend_is_cheapest(
    profiles: Seq<BackendProfile>,
    risk: RiskTier,
    needs: Needs,
    i: int,
    j: int,
)
    requires
        chosen(profiles, risk, needs, i),
        0 <= j < profiles.len(),
        eligible(profiles[j], risk, needs),
    ensures
        profiles[i].cold_start_ms + 10 * profiles[i].isolation_strength
            <= profiles[j].cold_start_ms + 10 * profiles[j].isolation_strength,
        profiles[i].cold_start_ms + 10 * profiles[i].isolation_strength
            == profiles[j].cold_start_ms + 10 * profiles[j].isolation_strength ==> !text::lt(
            profiles[j].name@,
            profiles[i].name@,
        ),
        profiles[i].isolation_strength == profiles[j].isolation_strength
            ==> profiles[i].cold_start_ms <= profiles[j].cold_start_ms,
        profiles[i].cold_start_ms == profiles[j].cold_start_ms
            ==> profiles[i].isolation_strength <= profiles[j].isolation_strength,
{
}

/// A backend may run a step exactly if its isolation reaches the floor of the tier
/// (20 for low risk, 60 for medium, 85 for high) and it has everything that the step
/// needs.
pub proof fn law_eligible_backends_have_what_is_needed(
    p: BackendProfile,
    risk: RiskTier,
    needs: Needs,
)
    ensures
        eligible(p, risk, needs) <==> {
            &&& risk is Low ==> p.isolation_strength >= 20
            &&& risk is Medium ==> p.isolation_strength >= 60
            &&& risk is High ==> p.isolation_strength >= 85
            &&& !(needs.full_linux && !p.full_linux)
            &&& !(needs.gui && !p.supports_gui)
            &&& !(needs.fork && !p.supports_fork)
            &&& !(needs.workspace && !p.shares_workspace && !p.syncs_state)
            &&& needs.replay_at_least matches Some(c) ==> c.spec_rank()
                <= p.replay_class.spec_rank()
        },
{
}

/// Where no backend will do, the router says so, in its own name.
pub proof fn law_unroutable_steps_are_told_so(e: KernelError)
    requires
        routing_error(e),
    ensures
        e is BackendUnavailable,
        e.spec_message() == "backend `"@ + "router"@ + "` unavailable: "@
            + "no registered backend satisfies the isolation floor and compatibility needs"@,
{
}

} // verus!
