use opus::domain::{
    ActionRequest, Capability, CapabilitySet, Identity, IdentityKind, Ledger, Policy,
    PolicyDecision, SignedEvent, TrustGraph,
};

#[test]
fn denies_capability_outside_grant() {
    let identity = Identity::new(
        "did:agent:test",
        "test",
        IdentityKind::Agent,
        &[Capability::ReadWorkspace],
    );
    let policy = Policy::new("did:human:owner");
    let request = ActionRequest::new(
        &identity.did,
        "modify file",
        "need to patch code",
        "src/main.rs",
        &[Capability::WriteWorkspace],
    );
    assert!(matches!(
        policy.evaluate(&identity, &request),
        PolicyDecision::Deny(_)
    ));
}

#[test]
fn event_signature_verifies() {
    let event = SignedEvent::new("did:agent:test", "action.executed", "patch=1");
    assert!(event.verifies());
}

fn owner_policy() -> Policy {
    let mut policy = Policy::new("did:key:owner");
    policy.auto_allow.insert(Capability::ReadWorkspace);
    policy.auto_allow.insert(Capability::ReviewOnly);
    policy.approval_required.insert(Capability::WriteWorkspace);
    policy.approval_required.insert(Capability::RunTerminalCommand);
    policy.deny.insert(Capability::NetworkAccess);
    policy
}

fn everything() -> Identity {
    Identity::new(
        "did:agent:all",
        "All",
        IdentityKind::Agent,
        &[
            Capability::ReviewOnly,
            Capability::NetworkAccess,
            Capability::RunTerminalCommand,
            Capability::WriteWorkspace,
            Capability::ReadWorkspace,
        ],
    )
}

fn request(caps: &[Capability]) -> ActionRequest {
    ActionRequest::new("did:agent:all", "s", "j", "t", caps)
}

fn reason(d: &PolicyDecision) -> String {
    match d {
        PolicyDecision::Allow => String::new(),
        PolicyDecision::RequireApproval(r) | PolicyDecision::Deny(r) => r.clone(),
    }
}

#[test]
fn capability_labels() {
    assert_eq!(Capability::ReadWorkspace.to_string(), "workspace.read");
    assert_eq!(Capability::WriteWorkspace.to_string(), "workspace.write");
    assert_eq!(Capability::RunTerminalCommand.to_string(), "terminal.run");
    assert_eq!(Capability::NetworkAccess.to_string(), "network.access");
    assert_eq!(Capability::ReviewOnly.to_string(), "review.only");
    assert_eq!(Capability::ReviewOnly.rank(), 4);
}

#[test]
fn identity_kind_labels() {
    assert_eq!(IdentityKind::Human.to_string(), "human");
    assert_eq!(IdentityKind::Agent.to_string(), "agent");
    assert_eq!(IdentityKind::Organization.to_string(), "organization");
    assert_eq!(IdentityKind::Plugin.to_string(), "plugin");
}

#[test]
fn capability_set_orders_and_deduplicates() {
    let set = CapabilitySet::from_slice(&[
        Capability::ReviewOnly,
        Capability::ReadWorkspace,
        Capability::ReviewOnly,
        Capability::NetworkAccess,
    ]);
    assert_eq!(
        set.as_slice(),
        &[Capability::ReadWorkspace, Capability::NetworkAccess, Capability::ReviewOnly]
    );
    assert_eq!(set.len(), 3);
    assert!(set.contains(Capability::NetworkAccess));
    assert!(!set.contains(Capability::WriteWorkspace));
    assert_eq!(set.joined_labels(), "workspace.read, network.access, review.only");
    assert_eq!(
        set.to_strings(),
        vec!["workspace.read", "network.access", "review.only"]
    );
}

#[test]
fn capability_set_insert_reports_novelty() {
    let mut set = CapabilitySet::new();
    assert!(set.is_empty());
    assert!(set.insert(Capability::RunTerminalCommand));
    assert!(set.insert(Capability::ReadWorkspace));
    assert!(!set.insert(Capability::RunTerminalCommand));
    assert_eq!(
        set.as_slice(),
        &[Capability::ReadWorkspace, Capability::RunTerminalCommand]
    );
    let copy = set.clone();
    assert_eq!(copy.as_slice(), set.as_slice());
    assert_eq!(CapabilitySet::new().joined_labels(), "");
}

#[test]
fn identity_issued_by_sets_issuer() {
    let id = Identity::new("did:x", "X", IdentityKind::Plugin, &[]).issued_by("did:org");
    assert_eq!(id.did, "did:x");
    assert_eq!(id.label, "X");
    assert_eq!(id.kind, IdentityKind::Plugin);
    assert_eq!(id.issuer.as_deref(), Some("did:org"));
    assert!(id.default_capabilities.is_empty());
    let plain = Identity::new("did:y", "Y", IdentityKind::Human, &[]);
    assert!(plain.issuer.is_none());
}

#[test]
fn contract_text_lists_capabilities_in_order() {
    let r = ActionRequest::new(
        "did:a",
        "sum",
        "why",
        "here",
        &[Capability::WriteWorkspace, Capability::ReadWorkspace],
    );
    assert_eq!(
        r.contract_text(),
        "actor=did:a target=here summary=sum justification=why capabilities=[workspace.read, workspace.write]"
    );
    let empty = ActionRequest::new("did:a", "s", "j", "t", &[]);
    assert_eq!(
        empty.contract_text(),
        "actor=did:a target=t summary=s justification=j capabilities=[]"
    );
}

#[test]
fn deny_list_takes_precedence_and_names_first_blocked() {
    let mut policy = owner_policy();
    policy.deny.insert(Capability::ReviewOnly);
    let d = policy.evaluate(
        &everything(),
        &request(&[Capability::ReviewOnly, Capability::NetworkAccess, Capability::WriteWorkspace]),
    );
    assert!(matches!(d, PolicyDecision::Deny(_)));
    assert_eq!(reason(&d), "network.access is blocked by policy");
    assert_eq!(d.to_string(), "deny: network.access is blocked by policy");
}

#[test]
fn exceeding_grant_is_denied() {
    let policy = owner_policy();
    let actor = Identity::new("did:a", "a", IdentityKind::Agent, &[Capability::ReadWorkspace]);
    let d = policy.evaluate(&actor, &request(&[Capability::ReadWorkspace, Capability::ReviewOnly]));
    assert!(matches!(d, PolicyDecision::Deny(_)));
    assert_eq!(reason(&d), "requested capability exceeds actor grant");
}

#[test]
fn flagged_capabilities_need_sign_off() {
    let policy = owner_policy();
    let d = policy.evaluate(
        &everything(),
        &request(&[
            Capability::RunTerminalCommand,
            Capability::ReadWorkspace,
            Capability::WriteWorkspace,
        ]),
    );
    assert!(matches!(d, PolicyDecision::RequireApproval(_)));
    assert_eq!(reason(&d), "workspace.write, terminal.run needs human sign-off");
    assert_eq!(
        d.to_string(),
        "require-approval: workspace.write, terminal.run needs human sign-off"
    );
}

#[test]
fn auto_allowed_request_is_allowed() {
    let policy = owner_policy();
    let d = policy.evaluate(
        &everything(),
        &request(&[Capability::ReadWorkspace, Capability::ReviewOnly]),
    );
    assert!(matches!(d, PolicyDecision::Allow));
    assert_eq!(d.to_string(), "allow");
}

#[test]
fn empty_request_is_allowed() {
    let policy = Policy::new("did:o");
    let d = policy.evaluate(&everything(), &request(&[]));
    assert!(matches!(d, PolicyDecision::Allow));
}

#[test]
fn uncovered_capability_needs_approval() {
    let policy = Policy::new("did:o");
    let d = policy.evaluate(&everything(), &request(&[Capability::ReadWorkspace]));
    assert!(matches!(d, PolicyDecision::RequireApproval(_)));
    assert_eq!(reason(&d), "capability not covered by auto-allow list");
}

#[test]
fn tampered_event_does_not_verify() {
    let mut event = SignedEvent::new("did:agent:test", "action.executed", "patch=1");
    assert_eq!(event.signature, "sig:4e9172d71f1ce0d4");
    event.payload = "patch=2".to_string();
    assert!(!event.verifies());
    let mut other = SignedEvent::new("did:agent:test", "action.executed", "patch=1");
    other.actor_did = "did:agent:mallory".to_string();
    assert!(!other.verifies());
}

#[test]
fn ledger_appends_in_order() {
    let mut ledger = Ledger::new();
    assert!(ledger.events().is_empty());
    ledger.record(SignedEvent::new("a", "t1", "p1"));
    ledger.record(SignedEvent::new("b", "t2", "p2"));
    let events = ledger.events();
    assert_eq!(events.len(), 2);
    assert_eq!(events[0].event_type, "t1");
    assert_eq!(events[1].actor_did, "b");
}

#[test]
fn trust_graph_orders_by_did_and_replaces() {
    let mut graph = TrustGraph::new();
    graph.insert(Identity::new("did:key:b", "B", IdentityKind::Human, &[]));
    graph.insert(Identity::new("did:agent:z", "Z", IdentityKind::Agent, &[]));
    graph.insert(Identity::new("did:org:a", "A", IdentityKind::Organization, &[]));
    graph.insert(Identity::new("did:key:b", "B2", IdentityKind::Human, &[Capability::ReviewOnly]));
    let dids: Vec<&str> = graph.identities().iter().map(|i| i.did.as_str()).collect();
    assert_eq!(dids, vec!["did:agent:z", "did:key:b", "did:org:a"]);
    assert_eq!(graph.get("did:key:b").unwrap().label, "B2");
    assert!(graph.get("did:key:c").is_none());
    assert_eq!(graph.get("did:org:a").unwrap().kind, IdentityKind::Organization);
}

#[test]
fn trust_graph_orders_by_bytes() {
    let mut graph = TrustGraph::new();
    graph.insert(Identity::new("b", "", IdentityKind::Human, &[]));
    graph.insert(Identity::new("é", "", IdentityKind::Human, &[]));
    graph.insert(Identity::new("B", "", IdentityKind::Human, &[]));
    graph.insert(Identity::new("ab", "", IdentityKind::Human, &[]));
    graph.insert(Identity::new("a", "", IdentityKind::Human, &[]));
    let dids: Vec<&str> = graph.identities().iter().map(|i| i.did.as_str()).collect();
    assert_eq!(dids, vec!["B", "a", "ab", "b", "é"]);
}
