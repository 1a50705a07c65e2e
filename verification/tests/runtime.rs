use opus::app::IdeRuntime;

const OVERVIEW: &str = "Opus: sovereign AI IDE prototype\nOwner DID: did:key:johanna\nPolicy owner: did:key:johanna\nKnown identities:\n  - Opus Builder [agent] issuer=did:org:opus caps=workspace.read, workspace.write, terminal.run\n  - Johanna [human] issuer=did:org:opus caps=workspace.read, workspace.write, terminal.run, network.access\n  - Opus [organization] issuer=self caps=\n  - Terminal Runner [plugin] issuer=did:org:opus caps=terminal.run\n";

const REPORT: &str = "Session ledger:\n  1. action.requested by did:agent:opus-builder [sig:9ca4aef04d5d3acd]\n     actor=did:agent:opus-builder target=src/main.rs summary=inspect Rust source justification=need context before proposing a patch capabilities=[workspace.read]\n  2. action.executed by did:agent:opus-builder [sig:c01d98027acbfc38]\n     actor=did:agent:opus-builder target=src/main.rs summary=inspect Rust source justification=need context before proposing a patch capabilities=[workspace.read]\n  3. action.requested by did:agent:opus-builder [sig:1565bf5620be338a]\n     actor=did:agent:opus-builder target=src/main.rs summary=apply patch justification=fix diagnostics in src/main.rs capabilities=[workspace.write]\n  4. approval.requested by did:key:johanna [sig:a3f8400d59172f0b]\n     actor=did:agent:opus-builder target=src/main.rs summary=apply patch justification=fix diagnostics in src/main.rs capabilities=[workspace.write] reason=workspace.write needs human sign-off\n  5. approval.granted by did:key:johanna [sig:03a5d9a7c644111d]\n     did:agent:opus-builder\n  6. action.executed by did:agent:opus-builder [sig:0f7823ee7a6ca26b]\n     actor=did:agent:opus-builder target=src/main.rs summary=apply patch justification=fix diagnostics in src/main.rs capabilities=[workspace.write]\n  7. action.requested by did:agent:opus-builder [sig:3321163e09247396]\n     actor=did:agent:opus-builder target=cargo test summary=run cargo test justification=verify patch and ledger semantics capabilities=[terminal.run]\n  8. approval.requested by did:key:johanna [sig:e1a1bcd42af903a2]\n     actor=did:agent:opus-builder target=cargo test summary=run cargo test justification=verify patch and ledger semantics capabilities=[terminal.run] reason=terminal.run needs human sign-off\n  9. approval.granted by did:key:johanna [sig:03a5d9a7c644111d]\n     did:agent:opus-builder\n  10. action.executed by did:agent:opus-builder [sig:f14b9f3c5b8323cf]\n     actor=did:agent:opus-builder target=cargo test summary=run cargo test justification=verify patch and ledger semantics capabilities=[terminal.run]\n  11. action.requested by did:agent:opus-builder [sig:a5f8bd43ead2fd81]\n     actor=did:agent:opus-builder target=registry://models/latest summary=download model justification=attempt to fetch a remote foundation model capabilities=[network.access]\n  12. action.denied by did:key:johanna [sig:fa946fd6fd0bfe24]\n     actor=did:agent:opus-builder target=registry://models/latest summary=download model justification=attempt to fetch a remote foundation model capabilities=[network.access] reason=network.access is blocked by policy\n";

#[test]
fn overview_lists_identities_in_did_order() {
    let runtime = IdeRuntime::seeded_demo();
    assert_eq!(runtime.render_overview(), OVERVIEW);
}

#[test]
fn demo_session_report() {
    let mut runtime = IdeRuntime::seeded_demo();
    let report = runtime.simulate_demo_session().unwrap();
    assert_eq!(report, REPORT);
    assert_eq!(runtime.render_ledger_report().unwrap(), REPORT);
}

#[test]
fn empty_ledger_report() {
    let runtime = IdeRuntime::seeded_demo();
    assert_eq!(runtime.render_ledger_report().unwrap(), "Session ledger:\n");
}

#[test]
fn catalog_actions_and_outcomes() {
    let mut runtime = IdeRuntime::seeded_demo();
    assert_eq!(
        runtime.execute_catalog_action("inspect", false).unwrap(),
        "inspect Rust source -> src/main.rs"
    );
    assert_eq!(runtime.snapshot().ledger.len(), 2);
    assert_eq!(
        runtime.execute_catalog_action("patch", false).unwrap(),
        "apply patch -> src/main.rs"
    );
    let snap = runtime.snapshot();
    let types: Vec<&str> = snap.ledger.iter().map(|e| e.event_type.as_str()).collect();
    assert_eq!(
        types,
        vec![
            "action.requested",
            "action.executed",
            "action.requested",
            "approval.requested",
            "approval.rejected"
        ]
    );
    assert_eq!(snap.ledger[4].payload, "did:agent:opus-builder");
    assert_eq!(snap.ledger[4].actor_did, "did:key:johanna");
    assert_eq!(
        runtime.execute_catalog_action("test", true).unwrap(),
        "run cargo test -> cargo test"
    );
    assert_eq!(
        runtime.execute_catalog_action("network", true).unwrap(),
        "download model -> registry://models/latest"
    );
    let snap = runtime.snapshot();
    assert_eq!(snap.ledger.len(), 11);
    assert_eq!(snap.ledger[10].event_type, "action.denied");
}

#[test]
fn unknown_action_is_refused_without_recording() {
    let mut runtime = IdeRuntime::seeded_demo();
    assert_eq!(
        runtime.execute_catalog_action("deploy", true),
        Err("unknown action deploy".to_string())
    );
    assert!(runtime.snapshot().ledger.is_empty());
}

#[test]
fn reset_clears_only_the_ledger() {
    let mut runtime = IdeRuntime::seeded_demo();
    runtime.simulate_demo_session().unwrap();
    assert_eq!(runtime.snapshot().ledger.len(), 12);
    runtime.reset();
    let snap = runtime.snapshot();
    assert!(snap.ledger.is_empty());
    assert_eq!(snap.identities.len(), 4);
    assert_eq!(runtime.render_overview(), OVERVIEW);
}

#[test]
fn snapshot_describes_state() {
    let mut runtime = IdeRuntime::seeded_demo();
    runtime.simulate_demo_session().unwrap();
    let snap = runtime.snapshot();
    assert_eq!(snap.owner_did, "did:key:johanna");
    let dids: Vec<&str> = snap.identities.iter().map(|i| i.did.as_str()).collect();
    assert_eq!(
        dids,
        vec!["did:agent:opus-builder", "did:key:johanna", "did:org:opus", "did:plugin:terminal"]
    );
    assert_eq!(snap.identities[2].issuer, "self");
    assert_eq!(snap.identities[2].kind, "organization");
    assert!(snap.identities[2].capabilities.is_empty());
    assert_eq!(snap.identities[0].issuer, "did:org:opus");
    assert_eq!(
        snap.identities[1].capabilities,
        vec!["workspace.read", "workspace.write", "terminal.run", "network.access"]
    );
    assert_eq!(snap.policy.owner_did, "did:key:johanna");
    assert_eq!(snap.policy.auto_allow, vec!["workspace.read", "review.only"]);
    assert_eq!(snap.policy.approval_required, vec!["workspace.write", "terminal.run"]);
    assert_eq!(snap.policy.deny, vec!["network.access"]);
    let ids: Vec<&str> = snap.actions.iter().map(|a| a.id.as_str()).collect();
    assert_eq!(ids, vec!["inspect", "patch", "test", "network"]);
    assert!(snap.actions[1].default_human_approval);
    assert!(!snap.actions[3].default_human_approval);
    assert_eq!(snap.actions[3].label, "Fetch Remote Model");
    assert_eq!(snap.ledger.len(), 12);
    for (i, e) in snap.ledger.iter().enumerate() {
        assert_eq!(e.index, i + 1);
        assert!(e.verifies);
    }
    assert_eq!(snap.ledger[4].signature, "sig:03a5d9a7c644111d");
}

#[test]
fn action_catalog_entries() {
    let runtime = IdeRuntime::seeded_demo();
    let catalog = runtime.action_catalog();
    assert_eq!(catalog.len(), 4);
    assert_eq!(catalog[0].label, "Inspect Workspace");
    assert_eq!(catalog[0].summary, "Agent reads local Rust source. Auto-allowed.");
    assert_eq!(catalog[2].summary, "Agent requests terminal.run for verification.");
}

#[test]
fn approval_flag_ignored_when_policy_decides() {
    let mut a = IdeRuntime::seeded_demo();
    let mut b = IdeRuntime::seeded_demo();
    for id in ["inspect", "network"] {
        assert_eq!(a.execute_catalog_action(id, true), b.execute_catalog_action(id, false));
    }
    assert_eq!(a.render_ledger_report(), b.render_ledger_report());
}

#[test]
fn catalog_defaults_match_approval_requests() {
    let runtime = IdeRuntime::seeded_demo();
    for entry in runtime.action_catalog() {
        let mut rt = IdeRuntime::seeded_demo();
        assert!(rt.execute_catalog_action(&entry.id, false).is_ok());
        let asked = rt
            .snapshot()
            .ledger
            .iter()
            .any(|e| e.event_type == "approval.requested");
        assert_eq!(asked, entry.default_human_approval, "{}", entry.id);
    }
}

#[test]
fn overview_survives_every_mutation() {
    let mut runtime = IdeRuntime::seeded_demo();
    runtime.execute_catalog_action("patch", true).unwrap();
    runtime.simulate_demo_session().unwrap();
    runtime.reset();
    let _ = runtime.execute_catalog_action("nope", false);
    let overview = runtime.render_overview();
    assert_eq!(overview, OVERVIEW);
    let head: Vec<&str> = overview.lines().take(4).collect();
    assert_eq!(
        head,
        vec![
            "Opus: sovereign AI IDE prototype",
            "Owner DID: did:key:johanna",
            "Policy owner: did:key:johanna",
            "Known identities:"
        ]
    );
    assert!(overview.ends_with('\n'));
}
