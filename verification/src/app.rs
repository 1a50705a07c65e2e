//! The IDE runtime: the trust graph, the owner's policy and the session ledger, with the
//! action catalog that routes agent requests through policy and human approval.
use vstd::prelude::*;
use crate::capability::{
    Capability, joined_labels, labels, lemma_contains_push, lemma_listing_unique,
};
use crate::domain::{
    ActionRequest, DecisionView, Identity, IdentityKind, Policy, PolicyDecision,
    contract_text_spec, evaluate_spec, kind_label,
};
use crate::ledger::{Ledger, SignedEvent};
use crate::text::{decimal, decimal_text};
use crate::trust::{TrustGraph, lookup, ordered_by_did};

verus! {

/// Summary of an identity, as handed to a user interface.
#[derive(Clone, Debug)]
pub struct IdentityView {
    pub did: String,
    pub label: String,
    pub kind: String,
    pub issuer: String,
    pub capabilities: Vec<String>,
}

/// Summary of the policy, as handed to a user interface.
#[derive(Clone, Debug)]
pub struct PolicyView {
    pub owner_did: String,
    pub auto_allow: Vec<String>,
    pub approval_required: Vec<String>,
    pub deny: Vec<String>,
}

/// Summary of a ledger event, numbered from 1.
#[derive(Clone, Debug)]
pub struct EventView {
    pub index: usize,
    pub actor_did: String,
    pub event_type: String,
    pub payload: String,
    pub signature: String,
    pub verifies: bool,
}

/// An action that the runtime offers.
#[derive(Clone, Debug)]
pub struct ActionCatalogEntry {
    pub id: String,
    pub label: String,
    pub summary: String,
    pub default_human_approval: bool,
}

/// The whole runtime state, as handed to a user interface.
#[derive(Clone, Debug)]
pub struct RuntimeSnapshot {
    pub owner_did: String,
    pub identities: Vec<IdentityView>,
    pub policy: PolicyView,
    pub actions: Vec<ActionCatalogEntry>,
    pub ledger: Vec<EventView>,
}

/// The texts of a sequence of strings.
pub open spec fn texts(v: Seq<String>) -> Seq<Seq<char>> {
    v.map_values(|s: String| s@)
}

/// The issuer shown for an identity: its issuer's DID, or "self".
pub open spec fn issuer_text(issuer: Option<String>) -> Seq<char> {
    match issuer {
        Some(s) => s@,
        None => "self"@,
    }
}

/// `v` summarizes `id`.
pub open spec fn describes_identity(v: IdentityView, id: Identity) -> bool {
    &&& v.did@ == id.did@
    &&& v.label@ == id.label@
    &&& v.kind@ == kind_label(id.kind)
    &&& v.issuer@ == issuer_text(id.issuer)
    &&& texts(v.capabilities@) == labels(id.default_capabilities@)
}

/// `v` summarizes `p`.
pub open spec fn describes_policy(v: PolicyView, p: Policy) -> bool {
    &&& v.owner_did@ == p.owner_did@
    &&& texts(v.auto_allow@) == labels(p.auto_allow@)
    &&& texts(v.approval_required@) == labels(p.approval_required@)
    &&& texts(v.deny@) == labels(p.deny@)
}

/// `v` summarizes `e` as the event numbered `index`.
pub open spec fn describes_event(v: EventView, index: int, e: SignedEvent) -> bool {
    &&& v.index == index
    &&& v.actor_did@ == e.actor_did@
    &&& v.event_type@ == e.event_type@
    &&& v.payload@ == e.payload@
    &&& v.signature@ == e.signature@
    &&& v.verifies == e.authentic()
}

/// `e` is the catalog entry with these texts.
pub open spec fn entry_is(
    e: ActionCatalogEntry,
    id: Seq<char>,
    label: Seq<char>,
    summary: Seq<char>,
    approval: bool,
) -> bool {
    e.id@ == id && e.label@ == label && e.summary@ == summary && e.default_human_approval == approval
}

/// `v` is the action catalog.
pub open spec fn is_catalog(v: Seq<ActionCatalogEntry>) -> bool {
    &&& v.len() == 4
    &&& entry_is(v[0], "inspect"@, "Inspect Workspace"@, "Agent reads local Rust source. Auto-allowed."@, false)
    &&& entry_is(v[1], "patch"@, "Apply Patch"@, "Agent requests workspace.write to modify code."@, true)
    &&& entry_is(v[2], "test"@, "Run Cargo Test"@, "Agent requests terminal.run for verification."@, true)
    &&& entry_is(v[3], "network"@, "Fetch Remote Model"@, "Agent requests network access and is denied by policy."@, false)
}

/// The request that a catalog action makes on behalf of the agent.
pub struct CatalogRequest {
    pub summary: Seq<char>,
    pub justification: Seq<char>,
    pub target: Seq<char>,
    pub capability: Capability,
}

/// The request made by the catalog action `id`, if there is such an action.
pub open spec fn catalog_request(id: Seq<char>) -> Option<CatalogRequest> {
    if id == "inspect"@ {
        Some(CatalogRequest {
            summary: "inspect Rust source"@,
            justification: "need context before proposing a patch"@,
            target: "src/main.rs"@,
            capability: Capability::ReadWorkspace,
        })
    } else if id == "patch"@ {
        Some(CatalogRequest {
            summary: "apply patch"@,
            justification: "fix diagnostics in src/main.rs"@,
            target: "src/main.rs"@,
            capability: Capability::WriteWorkspace,
        })
    } else if id == "test"@ {
        Some(CatalogRequest {
            summary: "run cargo test"@,
            justification: "verify patch and ledger semantics"@,
            target: "cargo test"@,
            capability: Capability::RunTerminalCommand,
        })
    } else if id == "network"@ {
        Some(CatalogRequest {
            summary: "download model"@,
            justification: "attempt to fetch a remote foundation model"@,
            target: "registry://models/latest"@,
            capability: Capability::NetworkAccess,
        })
    } else {
        None
    }
}

/// The actor, type and payload of a ledger event.
pub struct EventEntry {
    pub actor_did: Seq<char>,
    pub event_type: Seq<char>,
    pub payload: Seq<char>,
}

/// The actor, type and payload of `e`.
pub open spec fn entry_of(e: SignedEvent) -> EventEntry {
    EventEntry { actor_did: e.actor_did@, event_type: e.event_type@, payload: e.payload@ }
}

/// An event entry.
pub open spec fn entry(actor_did: Seq<char>, event_type: Seq<char>, payload: Seq<char>) -> EventEntry {
    EventEntry { actor_did, event_type, payload }
}

/// The events that processing a request records: the request itself, then what the
/// decision leads to, the human's answer included where the decision asked for one.
pub open spec fn request_entries(
    owner_did: Seq<char>,
    actor_did: Seq<char>,
    contract: Seq<char>,
    decision: DecisionView,
    human_approves: bool,
) -> Seq<EventEntry> {
    let requested = seq![entry(actor_did, "action.requested"@, contract)];
    match decision {
        DecisionView::Allow => requested.push(entry(actor_did, "action.executed"@, contract)),
        DecisionView::RequireApproval(reason) => {
            let asked = requested.push(
                entry(owner_did, "approval.requested"@, contract + " reason="@ + reason),
            );
            if human_approves {
                asked.push(entry(owner_did, "approval.granted"@, actor_did)).push(
                    entry(actor_did, "action.executed"@, contract),
                )
            } else {
                asked.push(entry(owner_did, "approval.rejected"@, actor_did))
            }
        },
        DecisionView::Deny(reason) => requested.push(
            entry(owner_did, "action.denied"@, contract + " reason="@ + reason),
        ),
    }
}

/// Every event in `evs` is authentic.
pub open spec fn all_authentic(evs: Seq<SignedEvent>) -> bool {
    forall|i: int| 0 <= i < evs.len() ==> (#[trigger] evs[i]).authentic()
}

/// `evs` are authentic events with exactly the entries `entries`.
pub open spec fn records(evs: Seq<SignedEvent>, entries: Seq<EventEntry>) -> bool {
    &&& evs.len() == entries.len()
    &&& all_authentic(evs)
    &&& forall|i: int| 0 <= i < evs.len() ==> entry_of(#[trigger] evs[i]) == entries[i]
}

/// The abstract state of a runtime.
pub struct RuntimeState {
    pub trust: Seq<Identity>,
    pub policy: Policy,
    pub ledger: Seq<SignedEvent>,
    pub owner_did: Seq<char>,
    pub agent_did: Seq<char>,
}

/// The capabilities granted to the identity with DID `did` in `trust`.
pub open spec fn grants_of(trust: Seq<Identity>, did: Seq<char>) -> Seq<Capability> {
    lookup(trust, did)->0.default_capabilities@
}

/// The events recorded when the agent runs the catalog request `req`.
pub open spec fn catalog_entries(s: RuntimeState, req: CatalogRequest, human_approves: bool) -> Seq<
    EventEntry,
> {
    let caps = seq![req.capability];
    request_entries(
        s.owner_did,
        s.agent_did,
        contract_text_spec(s.agent_did, req.target, req.summary, req.justification, caps),
        evaluate_spec(
            s.policy.auto_allow@,
            s.policy.approval_required@,
            s.policy.deny@,
            grants_of(s.trust, s.agent_did),
            caps,
        ),
        human_approves,
    )
}

/// The ledger `after` is `before` followed by authentic events with entries `entries`.
pub open spec fn appended(before: Seq<SignedEvent>, after: Seq<SignedEvent>, entries: Seq<EventEntry>) -> bool {
    &&& before.len() <= after.len()
    &&& after.take(before.len() as int) == before
    &&& records(after.skip(before.len() as int), entries)
}

/// `t` is the state `s` with the ledger `ledger`.
pub open spec fn with_ledger(t: RuntimeState, s: RuntimeState, ledger: Seq<SignedEvent>) -> bool {
    &&& t.trust == s.trust
    &&& t.policy == s.policy
    &&& t.owner_did == s.owner_did
    &&& t.agent_did == s.agent_did
    &&& t.ledger == ledger
}

/// The overview line of an identity.
pub open spec fn identity_line(id: Identity) -> Seq<char> {
    "  - "@ + id.label@ + " ["@ + kind_label(id.kind) + "] issuer="@ + issuer_text(id.issuer)
        + " caps="@ + joined_labels(id.default_capabilities@) + "\n"@
}

/// The overview lines of `ids`, in order.
pub open spec fn identity_lines(ids: Seq<Identity>) -> Seq<char>
    decreases ids.len(),
{
    if ids.len() == 0 {
        Seq::empty()
    } else {
        identity_lines(ids.drop_last()) + identity_line(ids.last())
    }
}

/// The overview of a runtime state.
pub open spec fn overview_text(s: RuntimeState) -> Seq<char> {
    "Opus: sovereign AI IDE prototype\n"@ + "Owner DID: "@ + s.owner_did + "\n"@
        + "Policy owner: "@ + s.policy.owner_did@ + "\n"@ + "Known identities:\n"@
        + identity_lines(s.trust)
}

/// The report block of `e`, numbered `n`.
pub open spec fn event_block(n: nat, e: SignedEvent) -> Seq<char> {
    "  "@ + decimal(n) + ". "@ + e.event_type@ + " by "@ + e.actor_did@ + " ["@ + e.signature@
        + "]\n"@ + "     "@ + e.payload@ + "\n"@
}

/// The report blocks of `evs`, numbered from 1.
pub open spec fn event_blocks(evs: Seq<SignedEvent>) -> Seq<char>
    decreases evs.len(),
{
    if evs.len() == 0 {
        Seq::empty()
    } else {
        event_blocks(evs.drop_last()) + event_block(evs.len(), evs.last())
    }
}

/// The position of the first event in `evs` whose signature does not verify.
pub open spec fn first_forged(evs: Seq<SignedEvent>) -> Option<int>
    decreases evs.len(),
{
    if evs.len() == 0 {
        None
    } else {
        match first_forged(evs.drop_last()) {
            Some(i) => Some(i),
            None => if evs.last().authentic() {
                None
            } else {
                Some(evs.len() - 1)
            },
        }
    }
}

/// The session report of a ledger, or the failure that stops it.
pub open spec fn ledger_report(evs: Seq<SignedEvent>) -> Result<Seq<char>, Seq<char>> {
    match first_forged(evs) {
        Some(i) => Err("ledger signature failed for event "@ + decimal((i + 1) as nat)),
        None => Ok("Session ledger:\n"@ + event_blocks(evs)),
    }
}

/// The events that the demo session records on a state.
pub open spec fn demo_entries(s: RuntimeState) -> Seq<EventEntry> {
    catalog_entries(s, catalog_request("inspect"@)->0, false) + catalog_entries(
        s,
        catalog_request("patch"@)->0,
        true,
    ) + catalog_entries(s, catalog_request("test"@)->0, true) + catalog_entries(
        s,
        catalog_request("network"@)->0,
        false,
    )
}

/// `id` has exactly these attributes.
pub open spec fn identity_is(
    id: Identity,
    did: Seq<char>,
    label: Seq<char>,
    kind: IdentityKind,
    issuer: Option<Seq<char>>,
    caps: Seq<Capability>,
) -> bool {
    &&& id.did@ == did
    &&& id.label@ == label
    &&& id.kind == kind
    &&& match issuer {
        Some(i) => id.issuer matches Some(x) && x@ == i,
        None => id.issuer is None,
    }
    &&& id.default_capabilities@ == caps
}

/// The DID of the demo owner.
pub open spec fn demo_owner_did() -> Seq<char> {
    "did:key:johanna"@
}

/// The DID of the demo agent.
pub open spec fn demo_agent_did() -> Seq<char> {
    "did:agent:opus-builder"@
}

/// The DID of the demo organization.
pub open spec fn demo_org_did() -> Seq<char> {
    "did:org:opus"@
}

/// The DID of the demo plugin.
pub open spec fn demo_plugin_did() -> Seq<char> {
    "did:plugin:terminal"@
}

/// `s` is the seeded demo state: four identities, the owner's policy, an empty ledger.
pub open spec fn seeded(s: RuntimeState) -> bool {
    &&& seeded_setup(s)
    &&& s.ledger.len() == 0
}

/// `s` has the demo's identities and policy, whatever its ledger holds: every state
/// that public calls reach from the seeded demo is such a state.
pub open spec fn seeded_setup(s: RuntimeState) -> bool {
    &&& s.owner_did == demo_owner_did()
    &&& s.agent_did == demo_agent_did()
    &&& s.policy.owner_did@ == demo_owner_did()
    &&& s.policy.auto_allow@ == seq![Capability::ReadWorkspace, Capability::ReviewOnly]
    &&& s.policy.approval_required@ == seq![
        Capability::WriteWorkspace,
        Capability::RunTerminalCommand,
    ]
    &&& s.policy.deny@ == seq![Capability::NetworkAccess]
    &&& s.trust.len() == 4
    &&& ordered_by_did(s.trust)
    &&& lookup(s.trust, demo_owner_did()) matches Some(x) && identity_is(
        x,
        demo_owner_did(),
        "Johanna"@,
        IdentityKind::Human,
        Some(demo_org_did()),
        seq![
            Capability::ReadWorkspace,
            Capability::WriteWorkspace,
            Capability::RunTerminalCommand,
            Capability::NetworkAccess,
        ],
    )
    &&& lookup(s.trust, demo_agent_did()) matches Some(x) && identity_is(
        x,
        demo_agent_did(),
        "Opus Builder"@,
        IdentityKind::Agent,
        Some(demo_org_did()),
        seq![
            Capability::ReadWorkspace,
            Capability::WriteWorkspace,
            Capability::RunTerminalCommand,
        ],
    )
    &&& lookup(s.trust, demo_org_did()) matches Some(x) && identity_is(
        x,
        demo_org_did(),
        "Opus"@,
        IdentityKind::Organization,
        None,
        Seq::empty(),
    )
    &&& lookup(s.trust, demo_plugin_did()) matches Some(x) && identity_is(
        x,
        demo_plugin_did(),
        "Terminal Runner"@,
        IdentityKind::Plugin,
        Some(demo_org_did()),
        seq![Capability::RunTerminalCommand],
    )
}

/// Nothing appended yet.
proof fn lemma_appended_none(before: Seq<SignedEvent>)
    ensures
        appended(before, before, Seq::empty()),
{
    assert(before.take(before.len() as int) =~= before);
    assert(before.skip(before.len() as int) =~= Seq::<SignedEvent>::empty());
}

/// One more authentic event with entry `x` appended.
proof fn lemma_appended_one(
    before: Seq<SignedEvent>,
    mid: Seq<SignedEvent>,
    after: Seq<SignedEvent>,
    entries: Seq<EventEntry>,
    x: EventEntry,
)
    requires
        appended(before, mid, entries),
        after.len() > 0,
        after.drop_last() == mid,
        after.last().authentic(),
        entry_of(after.last()) == x,
    ensures
        appended(before, after, entries.push(x)),
{
    let n = before.len() as int;
    assert(after.take(n) =~= mid.take(n));
    let tail = after.skip(n);
    assert(tail =~= mid.skip(n).push(after.last()));
    assert forall|i: int| 0 <= i < tail.len() implies (#[trigger] tail[i]).authentic() && entry_of(
        tail[i],
    ) == entries.push(x)[i] by {
        if i < tail.len() - 1 {
            assert(tail[i] == mid.skip(n)[i]);
        }
    }
}

/// Appending authentic events keeps every event of the ledger authentic.
proof fn lemma_appended_authentic(
    before: Seq<SignedEvent>,
    after: Seq<SignedEvent>,
    entries: Seq<EventEntry>,
)
    requires
        all_authentic(before),
        appended(before, after, entries),
    ensures
        all_authentic(after),
{
    let n = before.len() as int;
    assert forall|i: int| 0 <= i < after.len() implies (#[trigger] after[i]).authentic() by {
        if i < n {
            assert(after.take(n)[i] == after[i]);
        } else {
            assert(after.skip(n)[i - n] == after[i]);
        }
    }
}

/// Two stretches of appended events make one.
proof fn lemma_appended_trans(
    a: Seq<SignedEvent>,
    b: Seq<SignedEvent>,
    c: Seq<SignedEvent>,
    x: Seq<EventEntry>,
    y: Seq<EventEntry>,
)
    requires
        appended(a, b, x),
        appended(b, c, y),
    ensures
        appended(a, c, x + y),
{
    let n = a.len() as int;
    let m = b.len() as int;
    assert(c.take(n) =~= c.take(m).take(n));
    let t = c.skip(n);
    assert(t =~= b.skip(n) + c.skip(m)) by {
        assert forall|i: int| 0 <= i < t.len() implies t[i] == (b.skip(n) + c.skip(m))[i] by {
            if i < m - n {
                assert(c.take(m)[n + i] == c[n + i]);
            }
        }
    }
    assert forall|i: int| 0 <= i < t.len() implies (#[trigger] t[i]).authentic() && entry_of(t[i])
        == (x + y)[i] by {
        if i < m - n {
            assert(t[i] == b.skip(n)[i]);
        } else {
            assert(t[i] == c.skip(m)[i - (m - n)]);
        }
    }
}

/// A ledger whose events are all authentic has no forged event.
proof fn lemma_no_forgery(evs: Seq<SignedEvent>)
    requires
        all_authentic(evs),
    ensures
        first_forged(evs) is None,
    decreases evs.len(),
{
    if evs.len() > 0 {
        assert forall|i: int| 0 <= i < evs.drop_last().len() implies (#[trigger] evs.drop_last()[i]).authentic() by {
            assert(evs.drop_last()[i] == evs[i]);
        }
        lemma_no_forgery(evs.drop_last());
        assert(evs[evs.len() - 1].authentic());
    }
}

/// Records an event of type `event_type` with `payload`, signed by `actor_did`.
fn log_event(ledger: &mut Ledger, actor_did: &str, event_type: &str, payload: &str)
    ensures
        final(ledger)@.len() > 0,
        final(ledger)@.drop_last() == old(ledger)@,
        final(ledger)@.last().authentic(),
        entry_of(final(ledger)@.last()) == entry(actor_did@, event_type@, payload@),
{
    let e = SignedEvent::new(actor_did, event_type, payload);
    ledger.record(e);
    proof {
        assert(final(ledger)@.drop_last() =~= old(ledger)@);
    }
}

/// The runtime that routes agent actions through policy and records them.
pub struct IdeRuntime {
    trust_graph: TrustGraph,
    policy: Policy,
    ledger: Ledger,
    owner_did: String,
    agent_did: String,
}

impl View for IdeRuntime {
    type V = RuntimeState;

    closed spec fn view(&self) -> RuntimeState {
        RuntimeState {
            trust: self.trust_graph@,
            policy: self.policy,
            ledger: self.ledger@,
            owner_did: self.owner_did@,
            agent_did: self.agent_did@,
        }
    }
}

impl IdeRuntime {
    #[verifier::type_invariant]
    spec fn consistent(self) -> bool {
        &&& all_authentic(self.ledger@)
        &&& lookup(self.trust_graph@, self.agent_did@) is Some
        &&& ordered_by_did(self.trust_graph@)
    }

    /// The demo runtime: an owner, an agent and a plugin issued by an organization, a
    /// policy of the owner, and an empty ledger.
    pub fn seeded_demo() -> (rt: Self)
        ensures
            seeded(rt@),
    {
        let owner_did = String::from_str("did:key:johanna");
        let agent_did = String::from_str("did:agent:opus-builder");
        let org_did = String::from_str("did:org:opus");
        let plugin_did = String::from_str("did:plugin:terminal");

        let owner = Identity::new(
            owner_did.as_str(),
            "Johanna",
            IdentityKind::Human,
            &[
                Capability::ReadWorkspace,
                Capability::WriteWorkspace,
                Capability::RunTerminalCommand,
                Capability::NetworkAccess,
            ],
        ).issued_by(org_did.as_str());
        let agent = Identity::new(
            agent_did.as_str(),
            "Opus Builder",
            IdentityKind::Agent,
            &[Capability::ReadWorkspace, Capability::WriteWorkspace, Capability::RunTerminalCommand],
        ).issued_by(org_did.as_str());
        let org = Identity::new(org_did.as_str(), "Opus", IdentityKind::Organization, &[]);
        let plugin = Identity::new(
            plugin_did.as_str(),
            "Terminal Runner",
            IdentityKind::Plugin,
            &[Capability::RunTerminalCommand],
        ).issued_by(org_did.as_str());

        proof {
            lemma_listing_unique(
                owner.default_capabilities@,
                seq![
                    Capability::ReadWorkspace,
                    Capability::WriteWorkspace,
                    Capability::RunTerminalCommand,
                    Capability::NetworkAccess,
                ],
            );
            lemma_listing_unique(
                agent.default_capabilities@,
                seq![
                    Capability::ReadWorkspace,
                    Capability::WriteWorkspace,
                    Capability::RunTerminalCommand,
                ],
            );
            lemma_listing_unique(org.default_capabilities@, Seq::empty());
            assert forall|c: Capability| plugin.default_capabilities@.contains(c) <==> seq![
                Capability::RunTerminalCommand,
            ].contains(c) by {
                lemma_contains_push(Seq::empty(), Capability::RunTerminalCommand, c);
                assert(seq![Capability::RunTerminalCommand] =~= Seq::<Capability>::empty().push(
                    Capability::RunTerminalCommand,
                ));
            }
            lemma_listing_unique(plugin.default_capabilities@, seq![Capability::RunTerminalCommand]);
            reveal_strlit("did:key:johanna");
            reveal_strlit("did:agent:opus-builder");
            reveal_strlit("did:org:opus");
            reveal_strlit("did:plugin:terminal");
        }
        let ghost (o, a, g, p) = (owner, agent, org, plugin);

        let mut trust_graph = TrustGraph::new();
        let ghost t0 = trust_graph@;
        trust_graph.insert(owner);
        let ghost t1 = trust_graph@;
        trust_graph.insert(agent);
        let ghost t2 = trust_graph@;
        trust_graph.insert(org);
        let ghost t3 = trust_graph@;
        trust_graph.insert(plugin);
        let ghost t4 = trust_graph@;
        proof {
            assert(ordered_by_did(t0));
            crate::trust::lemma_insert_contents(t0, o);
            crate::trust::lemma_insert_contents(t1, a);
            crate::trust::lemma_insert_contents(t2, g);
            crate::trust::lemma_insert_contents(t3, p);
            let dids = seq![demo_owner_did(), demo_agent_did(), demo_org_did(), demo_plugin_did()];
            assert forall|k: int| 0 <= k < 4 implies {
                &&& lookup(t1, #[trigger] dids[k]) == (if k == 0 { Some(o) } else { lookup(t0, dids[k]) })
                &&& lookup(t2, dids[k]) == (if k == 1 { Some(a) } else { lookup(t1, dids[k]) })
                &&& lookup(t3, dids[k]) == (if k == 2 { Some(g) } else { lookup(t2, dids[k]) })
                &&& lookup(t4, dids[k]) == (if k == 3 { Some(p) } else { lookup(t3, dids[k]) })
            } by {
                crate::trust::lemma_lookup_insert(t0, o, dids[k]);
                crate::trust::lemma_lookup_insert(t1, a, dids[k]);
                crate::trust::lemma_lookup_insert(t2, g, dids[k]);
                crate::trust::lemma_lookup_insert(t3, p, dids[k]);
            }
            assert(lookup(t0, demo_agent_did()) is None);
            assert(lookup(t0, demo_org_did()) is None);
            assert(lookup(t0, demo_plugin_did()) is None);
            assert(dids[0] == demo_owner_did() && dids[1] == demo_agent_did() && dids[2] == demo_org_did()
                && dids[3] == demo_plugin_did());
            assert(lookup(t4, demo_owner_did()) == Some(o));
            assert(lookup(t4, demo_agent_did()) == Some(a));
            assert(lookup(t4, demo_org_did()) == Some(g));
            assert(lookup(t4, demo_plugin_did()) == Some(p));
            assert(lookup(t1, demo_agent_did()) is None);
            assert(lookup(t2, demo_org_did()) is None);
            assert(lookup(t3, demo_plugin_did()) is None);
        }

        let mut policy = Policy::new(owner_did.as_str());
        let ghost a0 = policy.auto_allow@;
        policy.auto_allow.insert(Capability::ReadWorkspace);
        let ghost a1 = policy.auto_allow@;
        policy.auto_allow.insert(Capability::ReviewOnly);
        let ghost r0 = policy.approval_required@;
        policy.approval_required.insert(Capability::WriteWorkspace);
        let ghost r1 = policy.approval_required@;
        policy.approval_required.insert(Capability::RunTerminalCommand);
        let ghost d0 = policy.deny@;
        policy.deny.insert(Capability::NetworkAccess);
        proof {
            assert(a0 =~= Seq::<Capability>::empty());
            assert(r0 =~= Seq::<Capability>::empty());
            assert(d0 =~= Seq::<Capability>::empty());
            let la = seq![Capability::ReadWorkspace, Capability::ReviewOnly];
            let lr = seq![Capability::WriteWorkspace, Capability::RunTerminalCommand];
            let ld = seq![Capability::NetworkAccess];
            assert(la =~= a0.push(Capability::ReadWorkspace).push(Capability::ReviewOnly));
            assert(lr =~= r0.push(Capability::WriteWorkspace).push(Capability::RunTerminalCommand));
            assert(ld =~= d0.push(Capability::NetworkAccess));
            assert forall|c: Capability| policy.auto_allow@.contains(c) <==> la.contains(c) by {
                lemma_contains_push(a0, Capability::ReadWorkspace, c);
                lemma_contains_push(a0.push(Capability::ReadWorkspace), Capability::ReviewOnly, c);
                lemma_contains_push(a1, Capability::ReviewOnly, c);
            }
            assert forall|c: Capability| policy.approval_required@.contains(c) <==> lr.contains(c) by {
                lemma_contains_push(r0, Capability::WriteWorkspace, c);
                lemma_contains_push(r0.push(Capability::WriteWorkspace), Capability::RunTerminalCommand, c);
                lemma_contains_push(r1, Capability::RunTerminalCommand, c);
            }
            assert forall|c: Capability| policy.deny@.contains(c) <==> ld.contains(c) by {
                lemma_contains_push(d0, Capability::NetworkAccess, c);
            }
            lemma_listing_unique(
                policy.auto_allow@,
                seq![Capability::ReadWorkspace, Capability::ReviewOnly],
            );
            lemma_listing_unique(
                policy.approval_required@,
                seq![Capability::WriteWorkspace, Capability::RunTerminalCommand],
            );
            lemma_listing_unique(policy.deny@, seq![Capability::NetworkAccess]);
        }

        IdeRuntime { trust_graph, policy, ledger: Ledger::new(), owner_did, agent_did }
    }

    /// Records `request` and routes it through the policy on behalf of its actor:
    /// allowed requests are executed, flagged ones wait for the human's answer, denied
    /// ones are recorded as denied. A request by an unknown actor is refused.
    fn process_request(&mut self, request: ActionRequest, human_approves: bool) -> (r: Result<(), String>)
        ensures
            match lookup(old(self)@.trust, request.actor_did@) {
                None => r matches Err(e) && e@ == "unknown actor "@ + request.actor_did@
                    && final(self)@ == old(self)@,
                Some(actor) => r is Ok && with_ledger(final(self)@, old(self)@, final(self)@.ledger)
                    && appended(
                    old(self)@.ledger,
                    final(self)@.ledger,
                    request_entries(
                        old(self)@.owner_did,
                        request.actor_did@,
                        request.contract(),
                        old(self)@.policy.decide(&actor, &request),
                        human_approves,
                    ),
                ),
            },
    {
        proof {
            use_type_invariant(&*self);
        }
        let actor = match self.trust_graph.get(request.actor_did.as_str()) {
            Some(actor) => actor,
            None => {
                let mut e = String::from_str("unknown actor ");
                e.append(request.actor_did.as_str());
                return Err(e);
            },
        };
        let contract = request.contract_text();
        let decision = self.policy.evaluate(actor, &request);
        let ghost d = decision@;
        let ghost before = self.ledger@;
        let ghost owner = self.owner_did@;
        let ghost actor_did = request.actor_did@;
        let ghost c = contract@;
        let mut ledger = Ledger::new();
        std::mem::swap(&mut ledger, &mut self.ledger);
        proof {
            lemma_appended_none(before);
        }
        let ghost l0 = ledger@;
        log_event(&mut ledger, request.actor_did.as_str(), "action.requested", contract.as_str());
        proof {
            lemma_appended_one(before, l0, ledger@, Seq::empty(), entry(actor_did, "action.requested"@, c));
        }
        let ghost l1 = ledger@;
        let ghost e1 = seq![entry(actor_did, "action.requested"@, c)];
        match decision {
            PolicyDecision::Allow => {
                log_event(&mut ledger, request.actor_did.as_str(), "action.executed", contract.as_str());
                proof {
                    lemma_appended_one(before, l1, ledger@, e1, entry(actor_did, "action.executed"@, c));
                }
            },
            PolicyDecision::RequireApproval(reason) => {
                let mut payload = contract.clone();
                payload.append(" reason=");
                payload.append(reason.as_str());
                log_event(&mut ledger, self.owner_did.as_str(), "approval.requested", payload.as_str());
                let ghost x2 = entry(owner, "approval.requested"@, payload@);
                proof {
                    lemma_appended_one(before, l1, ledger@, e1, x2);
                }
                let ghost l2 = ledger@;
                if human_approves {
                    log_event(&mut ledger, self.owner_did.as_str(), "approval.granted", request.actor_did.as_str());
                    let ghost x3 = entry(owner, "approval.granted"@, actor_did);
                    proof {
                        lemma_appended_one(before, l2, ledger@, e1.push(x2), x3);
                    }
                    let ghost l3 = ledger@;
                    log_event(&mut ledger, request.actor_did.as_str(), "action.executed", contract.as_str());
                    proof {
                        lemma_appended_one(
                            before,
                            l3,
                            ledger@,
                            e1.push(x2).push(x3),
                            entry(actor_did, "action.executed"@, c),
                        );
                    }
                } else {
                    log_event(&mut ledger, self.owner_did.as_str(), "approval.rejected", request.actor_did.as_str());
                    proof {
                        lemma_appended_one(
                            before,
                            l2,
                            ledger@,
                            e1.push(x2),
                            entry(owner, "approval.rejected"@, actor_did),
                        );
                    }
                }
            },
            PolicyDecision::Deny(reason) => {
                let mut payload = contract.clone();
                payload.append(" reason=");
                payload.append(reason.as_str());
                log_event(&mut ledger, self.owner_did.as_str(), "action.denied", payload.as_str());
                proof {
                    lemma_appended_one(before, l1, ledger@, e1, entry(owner, "action.denied"@, payload@));
                }
            },
        }
        proof {
            lemma_appended_authentic(
                before,
                ledger@,
                request_entries(owner, actor_did, c, d, human_approves),
            );
        }
        self.ledger = ledger;
        Ok(())
    }

    /// Runs the catalog action `action_id` as the agent; the human's answer is
    /// `human_approves` where the policy asks for one. Returns "{summary} -> {target}".
    pub fn execute_catalog_action(&mut self, action_id: &str, human_approves: bool) -> (r: Result<
        String,
        String,
    >)
        ensures
            match catalog_request(action_id@) {
                None => r matches Err(e) && e@ == "unknown action "@ + action_id@ && final(self)@
                    == old(self)@,
                Some(req) => r matches Ok(s) && s@ == req.summary + " -> "@ + req.target
                    && with_ledger(final(self)@, old(self)@, final(self)@.ledger) && appended(
                    old(self)@.ledger,
                    final(self)@.ledger,
                    catalog_entries(old(self)@, req, human_approves),
                ),
            },
            overview_text(final(self)@) == overview_text(old(self)@),
    {
        proof {
            use_type_invariant(&*self);
        }
        let (summary, justification, target, capability) = if crate::text::text_eq(action_id, "inspect") {
            (
                "inspect Rust source",
                "need context before proposing a patch",
                "src/main.rs",
                Capability::ReadWorkspace,
            )
        } else if crate::text::text_eq(action_id, "patch") {
            (
                "apply patch",
                "fix diagnostics in src/main.rs",
                "src/main.rs",
                Capability::WriteWorkspace,
            )
        } else if crate::text::text_eq(action_id, "test") {
            (
                "run cargo test",
                "verify patch and ledger semantics",
                "cargo test",
                Capability::RunTerminalCommand,
            )
        } else if crate::text::text_eq(action_id, "network") {
            (
                "download model",
                "attempt to fetch a remote foundation model",
                "registry://models/latest",
                Capability::NetworkAccess,
            )
        } else {
            let mut e = String::from_str("unknown action ");
            e.append(action_id);
            return Err(e);
        };
        let ghost req = catalog_request(action_id@)->0;
        assert(summary@ == req.summary && justification@ == req.justification && target@
            == req.target && capability == req.capability);
        let request = ActionRequest::new(
            self.agent_did.as_str(),
            summary,
            justification,
            target,
            &[capability],
        );
        proof {
            let one = seq![capability];
            assert(one =~= Seq::<Capability>::empty().push(capability));
            assert forall|c: Capability| request.requested_capabilities@.contains(c) <==> one.contains(c) by {
                lemma_contains_push(Seq::empty(), capability, c);
            }
            lemma_listing_unique(request.requested_capabilities@, one);
        }
        let mut outcome = String::from_str(summary);
        outcome.append(" -> ");
        outcome.append(target);
        match self.process_request(request, human_approves) {
            Ok(()) => Ok(outcome),
            Err(e) => Err(e),
        }
    }

    /// Runs the demo session: inspect (no approval), patch and test (approved), and a
    /// network fetch (no approval); then reports the ledger.
    pub fn simulate_demo_session(&mut self) -> (r: Result<String, String>)
        ensures
            with_ledger(final(self)@, old(self)@, final(self)@.ledger),
            appended(old(self)@.ledger, final(self)@.ledger, demo_entries(old(self)@)),
            overview_text(final(self)@) == overview_text(old(self)@),
            r matches Ok(t) && ledger_report(final(self)@.ledger) == Ok::<Seq<char>, Seq<char>>(t@),
    {
        proof {
            reveal_strlit("inspect");
            reveal_strlit("patch");
            reveal_strlit("test");
            reveal_strlit("network");
        }
        let ghost s0 = self@;
        if let Err(e) = self.execute_catalog_action("inspect", false) {
            return Err(e);
        }
        let ghost s1 = self@;
        if let Err(e) = self.execute_catalog_action("patch", true) {
            return Err(e);
        }
        let ghost s2 = self@;
        if let Err(e) = self.execute_catalog_action("test", true) {
            return Err(e);
        }
        let ghost s3 = self@;
        if let Err(e) = self.execute_catalog_action("network", false) {
            return Err(e);
        }
        proof {
            let e1 = catalog_entries(s0, catalog_request("inspect"@)->0, false);
            let e2 = catalog_entries(s0, catalog_request("patch"@)->0, true);
            let e3 = catalog_entries(s0, catalog_request("test"@)->0, true);
            let e4 = catalog_entries(s0, catalog_request("network"@)->0, false);
            assert(catalog_entries(s1, catalog_request("patch"@)->0, true) == e2);
            assert(catalog_entries(s2, catalog_request("test"@)->0, true) == e3);
            assert(catalog_entries(s3, catalog_request("network"@)->0, false) == e4);
            lemma_appended_trans(s0.ledger, s1.ledger, s2.ledger, e1, e2);
            lemma_appended_trans(s0.ledger, s2.ledger, s3.ledger, e1 + e2, e3);
            lemma_appended_trans(s0.ledger, s3.ledger, self@.ledger, e1 + e2 + e3, e4);
        }
        self.render_ledger_report()
    }

    /// Empties the ledger.
    pub fn reset(&mut self)
        ensures
            with_ledger(final(self)@, old(self)@, Seq::empty()),
            overview_text(final(self)@) == overview_text(old(self)@),
    {
        proof {
            use_type_invariant(&*self);
        }
        self.ledger = Ledger::new();
    }

    /// The session report: every event, numbered from 1, with its signature; it fails
    /// at the first event whose signature does not verify.
    pub fn render_ledger_report(&self) -> (r: Result<String, String>)
        ensures
            all_authentic(self@.ledger),
            r matches Ok(t) && ledger_report(self@.ledger) == Ok::<Seq<char>, Seq<char>>(t@),
    {
        proof {
            use_type_invariant(self);
            lemma_no_forgery(self.ledger@);
        }
        let events = self.ledger.events();
        let mut out = String::from_str("Session ledger:\n");
        let ghost header = out@;
        let mut i: usize = 0;
        while i < events.len()
            invariant
                i <= events.len(),
                events@ == self@.ledger,
                all_authentic(events@),
                out@ == header + event_blocks(events@.take(i as int)),
            decreases events.len() - i,
        {
            let event = &events[i];
            if !event.verifies() {
                let mut e = String::from_str("ledger signature failed for event ");
                e.append(decimal_text(i + 1).as_str());
                return Err(e);
            }
            let mut block = String::from_str("  ");
            block.append(decimal_text(i + 1).as_str());
            block.append(". ");
            block.append(event.event_type.as_str());
            block.append(" by ");
            block.append(event.actor_did.as_str());
            block.append(" [");
            block.append(event.signature.as_str());
            block.append("]\n");
            block.append("     ");
            block.append(event.payload.as_str());
            block.append("\n");
            proof {
                let prev = events@.take(i as int);
                let next = events@.take(i + 1);
                assert(next.drop_last() =~= prev);
                assert(next.last() == events@[i as int]);
                assert(block@ == event_block((i + 1) as nat, events@[i as int]));
                assert(header + event_blocks(prev) + block@ =~= header + (event_blocks(prev) + block@));
            }
            out.append(block.as_str());
            i = i + 1;
        }
        proof {
            assert(events@.take(events.len() as int) =~= events@);
        }
        Ok(out)
    }

    /// The overview: the owner, the policy owner and every known identity.
    pub fn render_overview(&self) -> (s: String)
        ensures
            s@ == overview_text(self@),
            ordered_by_did(self@.trust),
    {
        proof {
            use_type_invariant(self);
        }
        let mut out = String::from_str("Opus: sovereign AI IDE prototype\n");
        out.append("Owner DID: ");
        out.append(self.owner_did.as_str());
        out.append("\n");
        out.append("Policy owner: ");
        out.append(self.policy.owner_did.as_str());
        out.append("\n");
        out.append("Known identities:\n");
        let ghost header = out@;
        let identities = self.trust_graph.identities();
        let mut i: usize = 0;
        while i < identities.len()
            invariant
                i <= identities.len(),
                identities@ == self@.trust,
                out@ == header + identity_lines(identities@.take(i as int)),
            decreases identities.len() - i,
        {
            let identity = &identities[i];
            let issuer = match &identity.issuer {
                Some(issuer) => issuer.as_str(),
                None => "self",
            };
            let mut line = String::from_str("  - ");
            line.append(identity.label.as_str());
            line.append(" [");
            line.append(identity.kind.to_string().as_str());
            line.append("] issuer=");
            line.append(issuer);
            line.append(" caps=");
            line.append(identity.default_capabilities.joined_labels().as_str());
            line.append("\n");
            proof {
                let prev = identities@.take(i as int);
                let next = identities@.take(i + 1);
                assert(next.drop_last() =~= prev);
                assert(next.last() == identities@[i as int]);
                assert(line@ == identity_line(identities@[i as int]));
                assert(header + identity_lines(prev) + line@ =~= header + (identity_lines(prev)
                    + line@));
            }
            out.append(line.as_str());
            i = i + 1;
        }
        proof {
            assert(identities@.take(identities.len() as int) =~= identities@);
        }
        out
    }

    /// The state as handed to a user interface: identities in DID order, the policy,
    /// the action catalog, and the ledger numbered from 1 with each signature checked.
    pub fn snapshot(&self) -> (snap: RuntimeSnapshot)
        ensures
            snap.owner_did@ == self@.owner_did,
            ordered_by_did(self@.trust),
            snap.identities@.len() == self@.trust.len(),
            forall|i: int| 0 <= i < self@.trust.len() ==> describes_identity(
                #[trigger] snap.identities@[i],
                self@.trust[i],
            ),
            describes_policy(snap.policy, self@.policy),
            is_catalog(snap.actions@),
            snap.ledger@.len() == self@.ledger.len(),
            all_authentic(self@.ledger),
            forall|i: int| 0 <= i < self@.ledger.len() ==> describes_event(
                #[trigger] snap.ledger@[i],
                i + 1,
                self@.ledger[i],
            ),
    {
        proof {
            use_type_invariant(self);
        }
        let trusted = self.trust_graph.identities();
        let mut identities: Vec<IdentityView> = Vec::new();
        let mut i: usize = 0;
        while i < trusted.len()
            invariant
                i <= trusted.len(),
                trusted@ == self@.trust,
                identities@.len() == i,
                forall|k: int| 0 <= k < i ==> describes_identity(#[trigger] identities@[k], trusted@[k]),
            decreases trusted.len() - i,
        {
            let identity = &trusted[i];
            let issuer = match &identity.issuer {
                Some(issuer) => issuer.clone(),
                None => String::from_str("self"),
            };
            identities.push(
                IdentityView {
                    did: identity.did.clone(),
                    label: identity.label.clone(),
                    kind: identity.kind.to_string(),
                    issuer,
                    capabilities: identity.default_capabilities.to_strings(),
                },
            );
            i = i + 1;
        }
        let policy = PolicyView {
            owner_did: self.policy.owner_did.clone(),
            auto_allow: self.policy.auto_allow.to_strings(),
            approval_required: self.policy.approval_required.to_strings(),
            deny: self.policy.deny.to_strings(),
        };
        let events = self.ledger.events();
        let mut ledger: Vec<EventView> = Vec::new();
        let mut j: usize = 0;
        while j < events.len()
            invariant
                j <= events.len(),
                events@ == self@.ledger,
                ledger@.len() == j,
                forall|k: int| 0 <= k < j ==> describes_event(#[trigger] ledger@[k], k + 1, events@[k]),
            decreases events.len() - j,
        {
            let event = &events[j];
            ledger.push(
                EventView {
                    index: j + 1,
                    actor_did: event.actor_did.clone(),
                    event_type: event.event_type.clone(),
                    payload: event.payload.clone(),
                    signature: event.signature.clone(),
                    verifies: event.verifies(),
                },
            );
            j = j + 1;
        }
        RuntimeSnapshot {
            owner_did: self.owner_did.clone(),
            identities,
            policy,
            actions: self.action_catalog(),
            ledger,
        }
    }

    /// The actions that the runtime offers.
    pub fn action_catalog(&self) -> (v: Vec<ActionCatalogEntry>)
        ensures
            is_catalog(v@),
    {
        let mut v: Vec<ActionCatalogEntry> = Vec::new();
        v.push(
            ActionCatalogEntry {
                id: String::from_str("inspect"),
                label: String::from_str("Inspect Workspace"),
                summary: String::from_str("Agent reads local Rust source. Auto-allowed."),
                default_human_approval: false,
            },
        );
        v.push(
            ActionCatalogEntry {
                id: String::from_str("patch"),
                label: String::from_str("Apply Patch"),
                summary: String::from_str("Agent requests workspace.write to modify code."),
                default_human_approval: true,
            },
        );
        v.push(
            ActionCatalogEntry {
                id: String::from_str("test"),
                label: String::from_str("Run Cargo Test"),
                summary: String::from_str("Agent requests terminal.run for verification."),
                default_human_approval: true,
            },
        );
        v.push(
            ActionCatalogEntry {
                id: String::from_str("network"),
                label: String::from_str("Fetch Remote Model"),
                summary: String::from_str("Agent requests network access and is denied by policy."),
                default_human_approval: false,
            },
        );
        v
    }
}

} // verus!
