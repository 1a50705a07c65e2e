//! Identities, action requests, and the policy that decides on them.
use vstd::prelude::*;
pub use crate::capability::{Capability, CapabilitySet};
pub use crate::ledger::{Ledger, SignedEvent};
pub use crate::trust::TrustGraph;
use crate::capability::{
    capability_label, joined_labels, join_labels, same_members,
    strictly_ranked,
};

verus! {

/// What kind of party an identity stands for.
#[derive(Clone, Copy, Debug, PartialEq, Eq, Structural)]
pub enum IdentityKind {
    Human,
    Agent,
    Organization,
    Plugin,
}

/// The text that names `kind`.
pub open spec fn kind_label(kind: IdentityKind) -> Seq<char> {
    match kind {
        IdentityKind::Human => "human"@,
        IdentityKind::Agent => "agent"@,
        IdentityKind::Organization => "organization"@,
        IdentityKind::Plugin => "plugin"@,
    }
}

impl IdentityKind {
    /// The text that names this kind.
    pub fn to_string(&self) -> (s: String)
        ensures
            s@ == kind_label(*self),
    {
        match self {
            IdentityKind::Human => String::from_str("human"),
            IdentityKind::Agent => String::from_str("agent"),
            IdentityKind::Organization => String::from_str("organization"),
            IdentityKind::Plugin => String::from_str("plugin"),
        }
    }
}

/// A party with a DID-like identifier and the capabilities granted to it.
#[derive(Clone, Debug)]
pub struct Identity {
    pub did: String,
    pub label: String,
    pub kind: IdentityKind,
    pub issuer: Option<String>,
    pub default_capabilities: CapabilitySet,
}

impl Identity {
    /// A self-issued identity with the given grants.
    pub fn new(did: &str, label: &str, kind: IdentityKind, default_capabilities: &[Capability]) -> (id: Self)
        ensures
            id.did@ == did@,
            id.label@ == label@,
            id.kind == kind,
            id.issuer is None,
            strictly_ranked(id.default_capabilities@),
            same_members(id.default_capabilities@, default_capabilities@),
    {
        Identity {
            did: String::from_str(did),
            label: String::from_str(label),
            kind,
            issuer: None,
            default_capabilities: CapabilitySet::from_slice(default_capabilities),
        }
    }

    /// This identity, issued by `issuer`.
    pub fn issued_by(self, issuer: &str) -> (id: Self)
        ensures
            id.did == self.did,
            id.label == self.label,
            id.kind == self.kind,
            id.issuer matches Some(i) && i@ == issuer@,
            id.default_capabilities == self.default_capabilities,
    {
        let mut id = self;
        id.issuer = Some(String::from_str(issuer));
        id
    }
}

/// What an action requester declares: who, what, why, where, and which capabilities.
#[derive(Clone, Debug)]
pub struct ActionRequest {
    pub actor_did: String,
    pub summary: String,
    pub justification: String,
    pub requested_capabilities: CapabilitySet,
    pub target: String,
}

/// The text of the contract that a request stands for.
pub open spec fn contract_text_spec(
    actor_did: Seq<char>,
    target: Seq<char>,
    summary: Seq<char>,
    justification: Seq<char>,
    caps: Seq<Capability>,
) -> Seq<char> {
    "actor="@ + actor_did + " target="@ + target + " summary="@ + summary + " justification="@
        + justification + " capabilities=["@ + joined_labels(caps) + "]"@
}

impl ActionRequest {
    /// A request by `actor_did` for the capabilities in `requested_capabilities`.
    pub fn new(
        actor_did: &str,
        summary: &str,
        justification: &str,
        target: &str,
        requested_capabilities: &[Capability],
    ) -> (r: Self)
        ensures
            r.actor_did@ == actor_did@,
            r.summary@ == summary@,
            r.justification@ == justification@,
            r.target@ == target@,
            strictly_ranked(r.requested_capabilities@),
            same_members(r.requested_capabilities@, requested_capabilities@),
    {
        ActionRequest {
            actor_did: String::from_str(actor_did),
            summary: String::from_str(summary),
            justification: String::from_str(justification),
            requested_capabilities: CapabilitySet::from_slice(requested_capabilities),
            target: String::from_str(target),
        }
    }

    /// The contract text of this request.
    pub open spec fn contract(&self) -> Seq<char> {
        contract_text_spec(
            self.actor_did@,
            self.target@,
            self.summary@,
            self.justification@,
            self.requested_capabilities@,
        )
    }

    /// The contract text of this request, as recorded in the ledger.
    pub fn contract_text(&self) -> (s: String)
        ensures
            s@ == self.contract(),
    {
        let capabilities = self.requested_capabilities.joined_labels();
        let mut s = String::from_str("actor=");
        s.append(self.actor_did.as_str());
        s.append(" target=");
        s.append(self.target.as_str());
        s.append(" summary=");
        s.append(self.summary.as_str());
        s.append(" justification=");
        s.append(self.justification.as_str());
        s.append(" capabilities=[");
        s.append(capabilities.as_str());
        s.append("]");
        s
    }
}

/// The outcome of evaluating a request against a policy.
#[derive(Clone, Debug)]
pub enum PolicyDecision {
    Allow,
    RequireApproval(String),
    Deny(String),
}

/// A policy decision with its reason as text.
pub enum DecisionView {
    Allow,
    RequireApproval(Seq<char>),
    Deny(Seq<char>),
}

impl View for PolicyDecision {
    type V = DecisionView;

    open spec fn view(&self) -> DecisionView {
        match self {
            PolicyDecision::Allow => DecisionView::Allow,
            PolicyDecision::RequireApproval(r) => DecisionView::RequireApproval(r@),
            PolicyDecision::Deny(r) => DecisionView::Deny(r@),
        }
    }
}

/// The display text of a decision.
pub open spec fn decision_text(d: DecisionView) -> Seq<char> {
    match d {
        DecisionView::Allow => "allow"@,
        DecisionView::RequireApproval(r) => "require-approval: "@ + r,
        DecisionView::Deny(r) => "deny: "@ + r,
    }
}

impl PolicyDecision {
    /// The display text of this decision.
    pub fn to_string(&self) -> (s: String)
        ensures
            s@ == decision_text(self@),
    {
        match self {
            PolicyDecision::Allow => String::from_str("allow"),
            PolicyDecision::RequireApproval(reason) => {
                let mut s = String::from_str("require-approval: ");
                s.append(reason.as_str());
                s
            },
            PolicyDecision::Deny(reason) => {
                let mut s = String::from_str("deny: ");
                s.append(reason.as_str());
                s
            },
        }
    }
}

/// The members of `caps` that `set` also holds, in the order of `caps`.
pub open spec fn members_in(caps: Seq<Capability>, set: Seq<Capability>) -> Seq<Capability>
    decreases caps.len(),
{
    if caps.len() == 0 {
        Seq::empty()
    } else if set.contains(caps.last()) {
        members_in(caps.drop_last(), set).push(caps.last())
    } else {
        members_in(caps.drop_last(), set)
    }
}

/// Every member of `caps` is held by `set`.
pub open spec fn all_in(caps: Seq<Capability>, set: Seq<Capability>) -> bool {
    forall|i: int| 0 <= i < caps.len() ==> set.contains(#[trigger] caps[i])
}

/// The reason given when a requested capability is on the deny list.
pub open spec fn blocked_reason(c: Capability) -> Seq<char> {
    capability_label(c) + " is blocked by policy"@
}

/// The reason given when a request exceeds what the actor was granted.
pub open spec fn exceeds_grant_reason() -> Seq<char> {
    "requested capability exceeds actor grant"@
}

/// The reason given when some requested capabilities need a human.
pub open spec fn sign_off_reason(caps: Seq<Capability>) -> Seq<char> {
    joined_labels(caps) + " needs human sign-off"@
}

/// The reason given when a request is neither denied, nor flagged, nor auto-allowed.
pub open spec fn not_covered_reason() -> Seq<char> {
    "capability not covered by auto-allow list"@
}

/// The decision of a policy with lists `auto_allow`, `approval_required` and `deny` on a
/// request for `requested` by an actor granted `granted`.
pub open spec fn evaluate_spec(
    auto_allow: Seq<Capability>,
    approval_required: Seq<Capability>,
    deny: Seq<Capability>,
    granted: Seq<Capability>,
    requested: Seq<Capability>,
) -> DecisionView {
    if members_in(requested, deny).len() > 0 {
        DecisionView::Deny(blocked_reason(members_in(requested, deny)[0]))
    } else if !all_in(requested, granted) {
        DecisionView::Deny(exceeds_grant_reason())
    } else if members_in(requested, approval_required).len() > 0 {
        DecisionView::RequireApproval(sign_off_reason(members_in(requested, approval_required)))
    } else if all_in(requested, auto_allow) {
        DecisionView::Allow
    } else {
        DecisionView::RequireApproval(not_covered_reason())
    }
}

/// The members of `caps` that `set` holds, in the order of `caps`.
pub fn collect_members(caps: &[Capability], set: &CapabilitySet) -> (r: Vec<Capability>)
    ensures
        r@ == members_in(caps@, set@),
{
    let mut r: Vec<Capability> = Vec::new();
    let mut i: usize = 0;
    while i < caps.len()
        invariant
            i <= caps.len(),
            r@ == members_in(caps@.take(i as int), set@),
        decreases caps.len() - i,
    {
        proof {
            assert(caps@.take(i + 1).drop_last() =~= caps@.take(i as int));
        }
        if set.contains(caps[i]) {
            r.push(caps[i]);
        }
        i = i + 1;
    }
    proof {
        assert(caps@.take(caps.len() as int) =~= caps@);
    }
    r
}

/// Whether `set` holds every member of `caps`.
pub fn all_members(caps: &[Capability], set: &CapabilitySet) -> (r: bool)
    ensures
        r == all_in(caps@, set@),
{
    let mut i: usize = 0;
    while i < caps.len()
        invariant
            i <= caps.len(),
            forall|k: int| 0 <= k < i ==> set@.contains(#[trigger] caps@[k]),
        decreases caps.len() - i,
    {
        if !set.contains(caps[i]) {
            return false;
        }
        i = i + 1;
    }
    true
}

/// What an owner allows outright, routes to a human, and forbids.
#[derive(Clone, Debug)]
pub struct Policy {
    pub owner_did: String,
    pub auto_allow: CapabilitySet,
    pub approval_required: CapabilitySet,
    pub deny: CapabilitySet,
}

impl Policy {
    /// A policy of `owner_did` with all three lists empty.
    pub fn new(owner_did: &str) -> (p: Self)
        ensures
            p.owner_did@ == owner_did@,
            p.auto_allow@.len() == 0,
            p.approval_required@.len() == 0,
            p.deny@.len() == 0,
    {
        Policy {
            owner_did: String::from_str(owner_did),
            auto_allow: CapabilitySet::new(),
            approval_required: CapabilitySet::new(),
            deny: CapabilitySet::new(),
        }
    }

    /// The decision of this policy on `request` by `identity`.
    pub open spec fn decide(&self, identity: &Identity, request: &ActionRequest) -> DecisionView {
        evaluate_spec(
            self.auto_allow@,
            self.approval_required@,
            self.deny@,
            identity.default_capabilities@,
            request.requested_capabilities@,
        )
    }

    /// Decides on `request` by `identity`: a denied capability blocks it; so does one
    /// that the identity was not granted; one that needs approval routes it to a human;
    /// it is allowed when every capability is auto-allowed, and otherwise needs approval.
    pub fn evaluate(&self, identity: &Identity, request: &ActionRequest) -> (d: PolicyDecision)
        ensures
            d@ == self.decide(identity, request),
    {
        let requested = request.requested_capabilities.as_slice();
        let blocked = collect_members(requested, &self.deny);
        if blocked.len() > 0 {
            let mut reason = blocked[0].to_string();
            reason.append(" is blocked by policy");
            return PolicyDecision::Deny(reason);
        }
        if !all_members(requested, &identity.default_capabilities) {
            return PolicyDecision::Deny(String::from_str("requested capability exceeds actor grant"));
        }
        let flagged = collect_members(requested, &self.approval_required);
        if flagged.len() > 0 {
            let mut reason = join_labels(flagged.as_slice());
            reason.append(" needs human sign-off");
            return PolicyDecision::RequireApproval(reason);
        }
        if all_members(requested, &self.auto_allow) {
            return PolicyDecision::Allow;
        }
        PolicyDecision::RequireApproval(String::from_str("capability not covered by auto-allow list"))
    }
}

} // verus!
