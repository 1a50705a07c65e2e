//! Properties that hold of every policy decision, every request's trail of events,
//! and every signature.
use vstd::prelude::*;
use crate::app::{
    catalog_entries, catalog_request, entry, grants_of, identity_line, identity_lines,
    is_catalog, overview_text, request_entries, seeded_setup, with_ledger, EventEntry,
    RuntimeState,
};
use crate::capability::{Capability, lemma_contains_push, same_members};
use crate::crypto::{fnv1a64_spec, hex_digits, sign_spec, FNV_OFFSET_BASIS, FNV_PRIME};
use crate::text::{bytes_lt, decimal, digit_char, join};
use crate::workspace::hidden_name;
use crate::domain::{all_in, blocked_reason, evaluate_spec, members_in, sign_off_reason, DecisionView};

verus! {

/// A capability is among the members of `caps` held by `set` exactly when it is in
/// both; and there is such a member exactly when some member of `caps` is in `set`.
pub proof fn lemma_members_in(caps: Seq<Capability>, set: Seq<Capability>, c: Capability)
    ensures
        members_in(caps, set).contains(c) <==> (caps.contains(c) && set.contains(c)),
        members_in(caps, set).len() > 0 <==> exists|i: int| 0 <= i < caps.len() && set.contains(#[trigger] caps[i]),
    decreases caps.len(),
{
    if caps.len() > 0 {
        let init = caps.drop_last();
        let last = caps.last();
        lemma_members_in(init, set, c);
        let m = members_in(init, set);
        assert(caps =~= init.push(last));
        if caps.contains(c) {
            let k = choose|k: int| 0 <= k < caps.len() && #[trigger] caps[k] == c;
            if k < caps.len() - 1 {
                assert(init[k] == c);
            }
        }
        if init.contains(c) {
            let k = choose|k: int| 0 <= k < init.len() && #[trigger] init[k] == c;
            assert(caps[k] == c);
        }
        if set.contains(last) {
            assert(members_in(caps, set) == m.push(last));
            if m.push(last).contains(c) {
                let k = choose|k: int| 0 <= k < m.len() + 1 && #[trigger] m.push(last)[k] == c;
                if k < m.len() {
                    assert(m[k] == c);
                }
            }
            if m.contains(c) {
                let k = choose|k: int| 0 <= k < m.len() && #[trigger] m[k] == c;
                assert(m.push(last)[k] == c);
            }
            if c == last {
                assert(m.push(last)[m.len() as int] == c);
            }
            assert(caps[caps.len() - 1] == last);
        } else {
            assert(members_in(caps, set) == m);
            if exists|i: int| 0 <= i < caps.len() && set.contains(#[trigger] caps[i]) {
                let i = choose|i: int| 0 <= i < caps.len() && set.contains(#[trigger] caps[i]);
                assert(i < caps.len() - 1);
                assert(set.contains(init[i]));
            }
        }
        if exists|i: int| 0 <= i < init.len() && set.contains(#[trigger] init[i]) {
            let i = choose|i: int| 0 <= i < init.len() && set.contains(#[trigger] init[i]);
            assert(set.contains(caps[i]));
        }
    }
}

/// After inserting `c` into a capability set, `c` is a member, and any other
/// capability is a member exactly when it was before.
pub proof fn law_insert_membership(
    before: Seq<Capability>,
    after: Seq<Capability>,
    c: Capability,
    x: Capability,
)
    requires
        same_members(after, before.push(c)),
    ensures
        after.contains(c),
        x != c ==> (after.contains(x) <==> before.contains(x)),
{
    lemma_contains_push(before, c, c);
    lemma_contains_push(before, c, x);
}

/// Deny wins: a request for any capability on the deny list is denied, naming the
/// first such capability in capability order.
pub proof fn law_deny_takes_precedence(
    auto_allow: Seq<Capability>,
    approval_required: Seq<Capability>,
    deny: Seq<Capability>,
    granted: Seq<Capability>,
    requested: Seq<Capability>,
    c: Capability,
)
    requires
        requested.contains(c),
        deny.contains(c),
    ensures
        evaluate_spec(auto_allow, approval_required, deny, granted, requested) matches DecisionView::Deny(
            r,
        ) && r == crate::domain::blocked_reason(members_in(requested, deny)[0]),
{
    lemma_members_in(requested, deny, c);
}

/// A request for a capability that the actor was not granted is never allowed and
/// never sent to a human: it is denied.
pub proof fn law_outside_grant_is_denied(
    auto_allow: Seq<Capability>,
    approval_required: Seq<Capability>,
    deny: Seq<Capability>,
    granted: Seq<Capability>,
    requested: Seq<Capability>,
    c: Capability,
)
    requires
        requested.contains(c),
        !granted.contains(c),
    ensures
        evaluate_spec(auto_allow, approval_required, deny, granted, requested) is Deny,
{
    let k = choose|k: int| 0 <= k < requested.len() && #[trigger] requested[k] == c;
    assert(!granted.contains(requested[k]));
}

/// An allowed request asks only for capabilities that the actor was granted and that
/// the policy auto-allows, none of them denied or needing approval.
pub proof fn law_allow_is_within_grant_and_auto_allow(
    auto_allow: Seq<Capability>,
    approval_required: Seq<Capability>,
    deny: Seq<Capability>,
    granted: Seq<Capability>,
    requested: Seq<Capability>,
    c: Capability,
)
    requires
        evaluate_spec(auto_allow, approval_required, deny, granted, requested) is Allow,
        requested.contains(c),
    ensures
        granted.contains(c),
        auto_allow.contains(c),
        !deny.contains(c),
        !approval_required.contains(c),
{
    lemma_members_in(requested, deny, c);
    lemma_members_in(requested, approval_required, c);
    let k = choose|k: int| 0 <= k < requested.len() && #[trigger] requested[k] == c;
    assert(all_in(requested, granted));
    assert(all_in(requested, auto_allow));
    assert(granted.contains(requested[k]));
    assert(auto_allow.contains(requested[k]));
}

/// A request that nothing blocks and that stays within the grant goes to a human
/// when any of its capabilities needs approval, naming those capabilities in order,
/// even when they are also auto-allowed; otherwise it is allowed when every
/// capability is auto-allowed, and goes to a human as not covered when one is not.
pub proof fn law_approval_before_auto_allow(
    auto_allow: Seq<Capability>,
    approval_required: Seq<Capability>,
    deny: Seq<Capability>,
    granted: Seq<Capability>,
    requested: Seq<Capability>,
)
    requires
        forall|c: Capability| requested.contains(c) ==> !deny.contains(c) && granted.contains(c),
    ensures
        (exists|c: Capability| requested.contains(c) && approval_required.contains(c)) ==> evaluate_spec(
            auto_allow,
            approval_required,
            deny,
            granted,
            requested,
        ) == DecisionView::RequireApproval(
            sign_off_reason(requested.filter(|c: Capability| approval_required.contains(c))),
        ),
        !(exists|c: Capability| requested.contains(c) && approval_required.contains(c)) ==> evaluate_spec(
            auto_allow,
            approval_required,
            deny,
            granted,
            requested,
        ) == (if forall|c: Capability| requested.contains(c) ==> auto_allow.contains(c) {
            DecisionView::Allow
        } else {
            DecisionView::RequireApproval(crate::domain::not_covered_reason())
        }),
{
    law_members_in_is_filter(requested, approval_required);
    if members_in(requested, deny).len() > 0 {
        let x = members_in(requested, deny)[0];
        assert(members_in(requested, deny).contains(x));
        lemma_members_in(requested, deny, x);
    }
    assert forall|i: int| 0 <= i < requested.len() implies granted.contains(#[trigger] requested[i]) by {
        assert(requested.contains(requested[i]));
    }
    if exists|c: Capability| requested.contains(c) && approval_required.contains(c) {
        let c = choose|c: Capability| requested.contains(c) && approval_required.contains(c);
        lemma_members_in(requested, approval_required, c);
    } else {
        if members_in(requested, approval_required).len() > 0 {
            let x = members_in(requested, approval_required)[0];
            assert(members_in(requested, approval_required).contains(x));
            lemma_members_in(requested, approval_required, x);
        }
        if forall|c: Capability| requested.contains(c) ==> auto_allow.contains(c) {
            assert forall|i: int| 0 <= i < requested.len() implies auto_allow.contains(
                #[trigger] requested[i],
            ) by {
                assert(requested.contains(requested[i]));
            }
        } else {
            let c = choose|c: Capability| requested.contains(c) && !auto_allow.contains(c);
            let k = choose|k: int| 0 <= k < requested.len() && #[trigger] requested[k] == c;
            assert(!auto_allow.contains(requested[k]));
        }
    }
}

/// Whether `entries` holds an execution.
pub open spec fn has_execution(entries: Seq<EventEntry>) -> bool {
    exists|i: int| 0 <= i < entries.len() && (#[trigger] entries[i]).event_type == "action.executed"@
}

/// Every request is recorded first, with its contract; it is executed exactly when
/// the policy allows it, or asks for approval and the human approves.
pub proof fn law_execution_needs_policy_or_human(
    owner_did: Seq<char>,
    actor_did: Seq<char>,
    contract: Seq<char>,
    decision: DecisionView,
    human_approves: bool,
)
    ensures
        request_entries(owner_did, actor_did, contract, decision, human_approves)[0] == entry(
            actor_did,
            "action.requested"@,
            contract,
        ),
        has_execution(request_entries(owner_did, actor_did, contract, decision, human_approves))
            <==> (decision is Allow || (decision is RequireApproval && human_approves)),
{
    let es = request_entries(owner_did, actor_did, contract, decision, human_approves);
    reveal_strlit("action.executed");
    reveal_strlit("action.requested");
    reveal_strlit("approval.requested");
    reveal_strlit("approval.granted");
    reveal_strlit("approval.rejected");
    reveal_strlit("action.denied");
    match decision {
        DecisionView::Allow => {
            assert(es[1].event_type == "action.executed"@);
        },
        DecisionView::RequireApproval(_) => {
            if human_approves {
                assert(es[3].event_type == "action.executed"@);
            } else {
                assert forall|i: int| 0 <= i < es.len() implies (#[trigger] es[i]).event_type
                    != "action.executed"@ by {
                    if i == 0 {
                        assert(es[i].event_type[7] != "action.executed"@[7]);
                    } else if i == 1 {
                        assert(es[i].event_type[1] != "action.executed"@[1]);
                    } else {
                        assert(es[i].event_type[1] != "action.executed"@[1]);
                    }
                }
            }
        },
        DecisionView::Deny(_) => {
            assert forall|i: int| 0 <= i < es.len() implies (#[trigger] es[i]).event_type
                != "action.executed"@ by {
                if i == 0 {
                    assert(es[i].event_type[7] != "action.executed"@[7]);
                } else {
                    assert(es[i].event_type[7] != "action.executed"@[7]);
                }
            }
        },
    }
}

/// When the policy allows or denies outright, the human's answer plays no part: the
/// request records the same events whichever answer is given.
pub proof fn law_approval_flag_ignored_without_approval(
    owner_did: Seq<char>,
    actor_did: Seq<char>,
    contract: Seq<char>,
    decision: DecisionView,
    a: bool,
    b: bool,
)
    requires
        decision is Allow || decision is Deny,
    ensures
        request_entries(owner_did, actor_did, contract, decision, a) == request_entries(
            owner_did,
            actor_did,
            contract,
            decision,
            b,
        ),
{
}

/// A state with the demo's identities and policy keeps them through any call that
/// only changes the ledger, which is every public mutation of a runtime.
pub proof fn law_seeded_setup_kept(t: RuntimeState, s: RuntimeState, ledger: Seq<crate::ledger::SignedEvent>)
    requires
        seeded_setup(s),
        with_ledger(t, s, ledger),
    ensures
        seeded_setup(t),
        overview_text(t) == overview_text(s),
{
}

/// The types of the events `entries`, in order.
pub open spec fn event_types(entries: Seq<EventEntry>) -> Seq<Seq<char>> {
    entries.map_values(|e: EventEntry| e.event_type)
}

/// Whether one of `entries` has type `event_type`.
pub open spec fn has_event(entries: Seq<EventEntry>, event_type: Seq<char>) -> bool {
    exists|i: int| 0 <= i < entries.len() && (#[trigger] entries[i]).event_type == event_type
}

/// Membership in a one-capability listing.
proof fn lemma_one(a: Capability, x: Capability)
    ensures
        seq![a].contains(x) <==> x == a,
{
    lemma_contains_push(Seq::empty(), a, x);
    assert(seq![a] =~= Seq::<Capability>::empty().push(a));
}

/// Membership in a two-capability listing.
proof fn lemma_two(a: Capability, b: Capability, x: Capability)
    ensures
        seq![a, b].contains(x) <==> (x == a || x == b),
{
    lemma_one(a, x);
    lemma_contains_push(seq![a], b, x);
    assert(seq![a, b] =~= seq![a].push(b));
}

/// Membership in a three-capability listing.
proof fn lemma_three(a: Capability, b: Capability, c: Capability, x: Capability)
    ensures
        seq![a, b, c].contains(x) <==> (x == a || x == b || x == c),
{
    lemma_two(a, b, x);
    lemma_contains_push(seq![a, b], c, x);
    assert(seq![a, b, c] =~= seq![a, b].push(c));
}

/// Which members of a one-capability request a list holds, and whether it holds all.
proof fn lemma_single_request(c: Capability, set: Seq<Capability>)
    ensures
        members_in(seq![c], set) == (if set.contains(c) { seq![c] } else { Seq::<Capability>::empty() }),
        all_in(seq![c], set) == set.contains(c),
{
    assert(seq![c].drop_last() =~= Seq::<Capability>::empty());
    assert(seq![c].last() == c);
    assert(members_in(Seq::<Capability>::empty(), set) == Seq::<Capability>::empty());
    if set.contains(c) {
        assert(Seq::<Capability>::empty().push(c) =~= seq![c]);
    } else {
        assert(!set.contains(seq![c][0]));
    }
}

/// The decisions that the demo policy takes on the agent's one-capability requests:
/// reading is allowed, writing and running commands need approval, the network is
/// denied.
pub proof fn lemma_seeded_decisions(s: RuntimeState)
    requires
        seeded_setup(s),
    ensures
        evaluate_spec(
            s.policy.auto_allow@,
            s.policy.approval_required@,
            s.policy.deny@,
            grants_of(s.trust, s.agent_did),
            seq![Capability::ReadWorkspace],
        ) == DecisionView::Allow,
        evaluate_spec(
            s.policy.auto_allow@,
            s.policy.approval_required@,
            s.policy.deny@,
            grants_of(s.trust, s.agent_did),
            seq![Capability::WriteWorkspace],
        ) == DecisionView::RequireApproval(sign_off_reason(seq![Capability::WriteWorkspace])),
        evaluate_spec(
            s.policy.auto_allow@,
            s.policy.approval_required@,
            s.policy.deny@,
            grants_of(s.trust, s.agent_did),
            seq![Capability::RunTerminalCommand],
        ) == DecisionView::RequireApproval(sign_off_reason(seq![Capability::RunTerminalCommand])),
        evaluate_spec(
            s.policy.auto_allow@,
            s.policy.approval_required@,
            s.policy.deny@,
            grants_of(s.trust, s.agent_did),
            seq![Capability::NetworkAccess],
        ) == DecisionView::Deny(blocked_reason(Capability::NetworkAccess)),
{
    let r = Capability::ReadWorkspace;
    let w = Capability::WriteWorkspace;
    let t = Capability::RunTerminalCommand;
    let n = Capability::NetworkAccess;
    let v = Capability::ReviewOnly;
    assert(grants_of(s.trust, s.agent_did) == seq![r, w, t]);
    let caps = seq![r, w, t, n, v];
    assert forall|i: int| 0 <= i < 5 implies {
        let x = #[trigger] caps[i];
        &&& (seq![n].contains(x) <==> x == n)
        &&& (seq![r, v].contains(x) <==> (x == r || x == v))
        &&& (seq![w, t].contains(x) <==> (x == w || x == t))
        &&& (seq![r, w, t].contains(x) <==> (x == r || x == w || x == t))
    } by {
        lemma_one(n, caps[i]);
        lemma_two(r, v, caps[i]);
        lemma_two(w, t, caps[i]);
        lemma_three(r, w, t, caps[i]);
    }
    assert(caps[0] == r && caps[1] == w && caps[2] == t && caps[3] == n);
    lemma_single_request(r, s.policy.deny@);
    lemma_single_request(r, seq![r, w, t]);
    lemma_single_request(r, s.policy.approval_required@);
    lemma_single_request(r, s.policy.auto_allow@);
    lemma_single_request(w, s.policy.deny@);
    lemma_single_request(w, seq![r, w, t]);
    lemma_single_request(w, s.policy.approval_required@);
    lemma_single_request(t, s.policy.deny@);
    lemma_single_request(t, seq![r, w, t]);
    lemma_single_request(t, s.policy.approval_required@);
    lemma_single_request(n, s.policy.deny@);
}

/// In every state with the demo's identities and policy, each catalog action run
/// without the human's approval asks for approval exactly when the catalog says it
/// defaults to human approval; inspecting is executed at once and fetching from the
/// network is denied, whatever the human would answer.
pub proof fn law_seeded_catalog_approval(s: RuntimeState, v: Seq<crate::app::ActionCatalogEntry>, k: int)
    requires
        seeded_setup(s),
        is_catalog(v),
        0 <= k < 4,
    ensures
        catalog_request(v[k].id@) is Some,
        has_event(catalog_entries(s, catalog_request(v[k].id@)->0, false), "approval.requested"@)
            <==> v[k].default_human_approval,
        k == 0 ==> event_types(catalog_entries(s, catalog_request(v[k].id@)->0, false)) == seq![
            "action.requested"@,
            "action.executed"@,
        ],
        k == 3 ==> event_types(catalog_entries(s, catalog_request(v[k].id@)->0, false)) == seq![
            "action.requested"@,
            "action.denied"@,
        ],
        k == 0 || k == 3 ==> catalog_entries(s, catalog_request(v[k].id@)->0, true)
            == catalog_entries(s, catalog_request(v[k].id@)->0, false),
{
    reveal_strlit("inspect");
    reveal_strlit("patch");
    reveal_strlit("test");
    reveal_strlit("network");
    reveal_strlit("action.requested");
    reveal_strlit("action.executed");
    reveal_strlit("action.denied");
    reveal_strlit("approval.requested");
    reveal_strlit("approval.rejected");
    lemma_seeded_decisions(s);
    assert("network"@[0] != "inspect"@[0]);
    assert("network"@[0] != "patch"@[0]);
    assert("network"@[0] != "test"@[0]);
    assert("test"@[0] != "inspect"@[0]);
    assert("test"@[0] != "patch"@[0]);
    assert("patch"@[0] != "inspect"@[0]);
    let id = v[k].id@;
    let req = catalog_request(id)->0;
    let es = catalog_entries(s, req, false);
    assert("action.requested"@[1] != "approval.requested"@[1]);
    assert("action.executed"@[1] != "approval.requested"@[1]);
    assert("action.denied"@[1] != "approval.requested"@[1]);
    if k == 0 || k == 3 {
        if has_event(es, "approval.requested"@) {
            let i = choose|i: int| 0 <= i < es.len() && (#[trigger] es[i]).event_type == "approval.requested"@;
            assert(i == 0 || i == 1);
        }
        assert(event_types(es) =~= seq![es[0].event_type, es[1].event_type]);
    } else {
        assert(es[1].event_type == "approval.requested"@);
    }
}

/// The overview of a state with the demo's identities and policy begins with the
/// title, the owner, the policy owner and the heading of the identities, and ends
/// with a line feed.
pub proof fn law_seeded_overview(s: RuntimeState)
    requires
        seeded_setup(s),
    ensures
        overview_text(s).len() > 108,
        overview_text(s).take(108)
            == "Opus: sovereign AI IDE prototype\nOwner DID: did:key:johanna\nPolicy owner: did:key:johanna\nKnown identities:\n"@,
        overview_text(s).last() == '\n',
{
    reveal_strlit("Opus: sovereign AI IDE prototype\n");
    reveal_strlit("Owner DID: ");
    reveal_strlit("\n");
    reveal_strlit("Policy owner: ");
    reveal_strlit("Known identities:\n");
    reveal_strlit("did:key:johanna");
    reveal_strlit("Opus: sovereign AI IDE prototype\nOwner DID: did:key:johanna\nPolicy owner: did:key:johanna\nKnown identities:\n");
    let header = "Opus: sovereign AI IDE prototype\n"@ + "Owner DID: "@ + s.owner_did + "\n"@
        + "Policy owner: "@ + s.policy.owner_did@ + "\n"@ + "Known identities:\n"@;
    let lines = identity_lines(s.trust);
    assert(header =~= "Opus: sovereign AI IDE prototype\nOwner DID: did:key:johanna\nPolicy owner: did:key:johanna\nKnown identities:\n"@);
    let line = identity_line(s.trust.last());
    assert(lines == identity_lines(s.trust.drop_last()) + line);
    assert(line.last() == '\n');
    assert(overview_text(s) == header + lines);
    assert((header + lines).take(108) =~= header);
    assert((header + lines).last() == lines.last());
}


/// The number that a character stands for as a decimal or lowercase hexadecimal digit.
pub open spec fn digit_value(c: char) -> int {
    if '0' <= c && c <= '9' {
        (c as int) - ('0' as int)
    } else {
        (c as int) - ('a' as int) + 10
    }
}

/// `c` is a decimal digit.
pub open spec fn is_decimal_digit(c: char) -> bool {
    '0' <= c && c <= '9'
}

/// `c` is a lowercase hexadecimal digit.
pub open spec fn is_hex_digit(c: char) -> bool {
    ('0' <= c && c <= '9') || ('a' <= c && c <= 'f')
}

/// The number that the digits `s` stand for in base `base`, most significant first.
pub open spec fn numeral_value(s: Seq<char>, base: int) -> int
    decreases s.len(),
{
    if s.len() == 0 {
        0
    } else {
        numeral_value(s.drop_last(), base) * base + digit_value(s.last())
    }
}

/// Each digit below 16 is written as the lowercase character that stands for it.
pub proof fn law_digit_char(d: nat)
    requires
        d < 16,
    ensures
        digit_value(digit_char(d)) == d,
        is_hex_digit(digit_char(d)),
        d < 10 ==> is_decimal_digit(digit_char(d)),
{
}

/// The decimal numeral of `n` reads back as `n`: it is made of decimal digits, it
/// has no leading zero, and in base ten it stands for `n`.
pub proof fn law_decimal_reads_back(n: nat)
    ensures
        numeral_value(decimal(n), 10) == n,
        decimal(n).len() > 0,
        forall|i: int| 0 <= i < decimal(n).len() ==> is_decimal_digit(#[trigger] decimal(n)[i]),
        decimal(n).len() > 1 ==> decimal(n)[0] != '0',
    decreases n,
{
    if n < 10 {
        law_digit_char(n);
        let d = decimal(n);
        assert(d == seq![digit_char(n)]);
        assert(d.drop_last() =~= Seq::<char>::empty());
        assert(d.last() == digit_char(n));
        assert(numeral_value(d, 10) == numeral_value(d.drop_last(), 10) * 10 + digit_value(d.last()));
    } else {
        let q = n / 10;
        let r = n % 10;
        law_decimal_reads_back(q);
        law_digit_char(r);
        let d = decimal(n);
        assert(d == decimal(q).push(digit_char(r)));
        assert(d.drop_last() =~= decimal(q));
        assert(d.last() == digit_char(r));
        assert(n == 10 * q + r) by {
            vstd::arithmetic::div_mod::lemma_fundamental_div_mod(n as int, 10);
        }
        assert(numeral_value(d, 10) == numeral_value(decimal(q), 10) * 10 + digit_value(digit_char(r)));
        assert forall|i: int| 0 <= i < d.len() implies is_decimal_digit(#[trigger] d[i]) by {
            if i < d.len() - 1 {
                assert(d[i] == decimal(q)[i]);
            }
        }
        assert(q >= 1);
        if q < 10 {
            law_digit_char(q);
            assert(decimal(q) == seq![digit_char(q)]);
            assert(d[0] == digit_char(q));
            assert(digit_value('0') == 0);
        } else {
            assert(decimal(q) == decimal(q / 10).push(digit_char(q % 10)));
            law_decimal_reads_back(q / 10);
            assert(decimal(q).len() > 1);
            assert(d[0] == decimal(q)[0]);
        }
    }
}

/// 16 to the power `n`.
pub open spec fn pow16(n: nat) -> nat
    decreases n,
{
    if n == 0 {
        1
    } else {
        16 * pow16((n - 1) as nat)
    }
}

/// The last `n` hexadecimal digits of `v` are `n` lowercase hexadecimal digits that
/// stand for `v` modulo 16^n; so sixteen digits stand for any 64-bit value exactly.
pub proof fn law_hex_digits_read_back(v: nat, n: nat)
    ensures
        hex_digits(v, n).len() == n,
        numeral_value(hex_digits(v, n), 16) == v % pow16(n),
        forall|i: int| 0 <= i < n ==> is_hex_digit(#[trigger] hex_digits(v, n)[i]),
        n == 16 && v < 0x1_0000_0000_0000_0000 ==> numeral_value(hex_digits(v, n), 16) == v,
    decreases n,
{
    if n == 0 {
        assert(v % 1 == 0);
    } else {
        let m = (n - 1) as nat;
        law_hex_digits_read_back(v / 16, m);
        law_digit_char(v % 16);
        let h = hex_digits(v, n);
        assert(h.drop_last() =~= hex_digits(v / 16, m));
        assert forall|i: int| 0 <= i < n implies is_hex_digit(#[trigger] h[i]) by {
            if i < n - 1 {
                assert(h[i] == hex_digits(v / 16, m)[i]);
            }
        }
        assert(pow16(m) > 0) by {
            lemma_pow16_positive(m);
        }
        assert(v % (16 * pow16(m)) == 16 * ((v / 16) % pow16(m)) + v % 16) by {
            vstd::arithmetic::div_mod::lemma_mod_breakdown(v as int, 16, pow16(m) as int);
        }
        assert(numeral_value(h, 16) == numeral_value(hex_digits(v / 16, m), 16) * 16 + (v % 16));
    }
    if n == 16 && v < 0x1_0000_0000_0000_0000 {
        assert(pow16(16) == 0x1_0000_0000_0000_0000) by {
            reveal_with_fuel(pow16, 17);
        }
        vstd::arithmetic::div_mod::lemma_small_mod(v, pow16(16));
    }
}

/// Powers of 16 are positive.
pub proof fn lemma_pow16_positive(n: nat)
    ensures
        pow16(n) > 0,
    decreases n,
{
    if n > 0 {
        lemma_pow16_positive((n - 1) as nat);
    }
}

/// Each FNV-1a step xors the byte into the low eight bits of the hash only, then
/// multiplies by the FNV prime modulo 2^64; the empty input hashes to the offset basis.
pub proof fn law_fnv1a64_step(bytes: Seq<u8>, b: u8)
    ensures
        FNV_OFFSET_BASIS == 14695981039346656037u64,
        FNV_PRIME == 1099511628211u64,
        fnv1a64_spec(Seq::empty()) == FNV_OFFSET_BASIS,
        fnv1a64_spec(bytes.push(b)) == ((fnv1a64_spec(bytes) ^ (b as u64)) as int * FNV_PRIME as int)
            % 0x1_0000_0000_0000_0000,
        (fnv1a64_spec(bytes) ^ (b as u64)) >> 8u64 == fnv1a64_spec(bytes) >> 8u64,
        (fnv1a64_spec(bytes) ^ (b as u64)) & 0xffu64 == (fnv1a64_spec(bytes) & 0xffu64) ^ (b as u64),
{
    let h = fnv1a64_spec(bytes);
    assert(bytes.push(b).drop_last() =~= bytes);
    assert(bytes.push(b).last() == b);
    let x = h ^ (b as u64);
    assert(x >> 8u64 == h >> 8u64) by (bit_vector)
        requires
            x == h ^ (b as u64),
    ;
    assert(x & 0xffu64 == (h & 0xffu64) ^ (b as u64)) by (bit_vector)
        requires
            x == h ^ (b as u64),
    ;
    assert(x.wrapping_mul(FNV_PRIME) == (x as int * FNV_PRIME as int) % 0x1_0000_0000_0000_0000);
}

/// Lexicographic byte order: at the first position where two byte strings differ,
/// the smaller byte orders first; a proper prefix orders before the longer string.
pub proof fn law_bytes_lt_lexicographic(a: Seq<u8>, b: Seq<u8>, k: int)
    ensures
        0 <= k < a.len() && k < b.len() && a.take(k) == b.take(k) && a[k] != b[k] ==> (bytes_lt(
            a,
            b,
        ) <==> a[k] < b[k]),
        a.len() < b.len() && b.take(a.len() as int) == a ==> bytes_lt(a, b),
        !bytes_lt(a, a),
    decreases a.len(),
{
    crate::text::lemma_bytes_lt_irreflexive(a);
    if a.len() > 0 && b.len() > 0 {
        if k > 0 && k < a.len() && k < b.len() && a.take(k) == b.take(k) {
            assert(a[0] == a.take(k)[0]);
            assert(b[0] == b.take(k)[0]);
            assert(a.drop_first().take(k - 1) =~= a.take(k).drop_first());
            assert(b.drop_first().take(k - 1) =~= b.take(k).drop_first());
            law_bytes_lt_lexicographic(a.drop_first(), b.drop_first(), k - 1);
        }
        if a.len() < b.len() && b.take(a.len() as int) == a {
            assert(a[0] == b.take(a.len() as int)[0]);
            assert(b.drop_first().take(a.len() - 1) =~= a.drop_first());
            law_bytes_lt_lexicographic(a.drop_first(), b.drop_first(), 0);
        }
    }
}

/// The sum of the lengths of `parts`.
pub open spec fn total_len(parts: Seq<Seq<char>>) -> int
    decreases parts.len(),
{
    if parts.len() == 0 {
        0
    } else {
        total_len(parts.drop_last()) + parts.last().len()
    }
}

/// Joining keeps every part: adding a part adds the separator and the part at the
/// end, and the joined text is as long as all parts together plus one separator
/// between each two.
pub proof fn law_join_keeps_every_part(parts: Seq<Seq<char>>, sep: Seq<char>, p: Seq<char>)
    ensures
        parts.len() >= 1 ==> join(parts.push(p), sep) == join(parts, sep) + sep + p,
        join(Seq::empty().push(p), sep) == p,
        parts.len() >= 1 ==> join(parts, sep).len() == total_len(parts) + (parts.len() - 1)
            * sep.len(),
    decreases parts.len(),
{
    assert(parts.push(p).drop_last() =~= parts);
    assert(Seq::<Seq<char>>::empty().push(p)[0] == p);
    if parts.len() > 1 {
        law_join_keeps_every_part(parts.drop_last(), sep, parts.last());
        assert(parts.drop_last().len() >= 1);
        assert(join(parts, sep) == join(parts.drop_last(), sep) + sep + parts.last());
        assert(total_len(parts) == total_len(parts.drop_last()) + parts.last().len());
        assert((parts.len() - 1) * sep.len() == (parts.len() - 2) * sep.len() + sep.len())
            by (nonlinear_arith);
        assert(join(parts.drop_last(), sep).len() == total_len(parts.drop_last()) + (
        parts.drop_last().len() - 1) * sep.len());
        assert(join(parts, sep).len() == total_len(parts) + (parts.len() - 1) * sep.len());
    } else if parts.len() == 1 {
        assert(parts.drop_last() =~= Seq::<Seq<char>>::empty());
        assert(parts.last() == parts[0]);
        assert(total_len(parts) == total_len(parts.drop_last()) + parts.last().len());
        assert(total_len(parts.drop_last()) == 0);
        assert((parts.len() - 1) * sep.len() == 0) by (nonlinear_arith)
            requires
                parts.len() == 1,
        ;
        assert(join(parts, sep) == parts[0]);
    }
}

/// Only the three tooling entries are hidden: a hidden name is exactly ".git",
/// "target" or "node_modules", so any longer name that begins with one of them, such
/// as ".gitignore", is shown.
pub proof fn law_hidden_names_exact(name: Seq<char>, suffix: Seq<char>)
    ensures
        hidden_name(name) <==> (name == ".git"@ || name == "target"@ || name == "node_modules"@),
        suffix.len() > 0 ==> !hidden_name(".git"@ + suffix),
        suffix.len() > 0 ==> !hidden_name("target"@ + suffix),
        suffix.len() > 0 ==> !hidden_name("node_modules"@ + suffix),
{
    reveal_strlit(".git");
    reveal_strlit("target");
    reveal_strlit("node_modules");
    if suffix.len() > 0 {
        let g = ".git"@ + suffix;
        let t = "target"@ + suffix;
        let m = "node_modules"@ + suffix;
        assert(g[0] == '.' && t[0] == 't' && m[0] == 'n');
        assert(g.len() > 4 && t.len() > 6 && m.len() > 12);
        if g == "target"@ {
            assert(g[0] == "target"@[0]);
        }
        if g == "node_modules"@ {
            assert(g[0] == "node_modules"@[0]);
        }
        if t == ".git"@ {
            assert(t.len() == 4);
        }
        if t == "node_modules"@ {
            assert(t[0] == "node_modules"@[0]);
        }
        if m == ".git"@ || m == "target"@ {
            assert(m.len() > 12);
        }
    }
}

/// The UTF-8 encoding of a concatenation is the concatenation of the encodings.
pub proof fn lemma_encode_concat(a: Seq<char>, b: Seq<char>)
    ensures
        vstd::utf8::encode_utf8(a + b) == vstd::utf8::encode_utf8(a) + vstd::utf8::encode_utf8(b),
    decreases a.len(),
{
    if a.len() == 0 {
        assert(a + b =~= b);
        assert(vstd::utf8::encode_utf8(a) =~= Seq::<u8>::empty());
        assert(Seq::<u8>::empty() + vstd::utf8::encode_utf8(b) =~= vstd::utf8::encode_utf8(b));
    } else {
        lemma_encode_concat(a.drop_first(), b);
        assert((a + b).drop_first() =~= a.drop_first() + b);
        assert((a + b)[0] == a[0]);
        let e0 = vstd::utf8::encode_scalar(a[0] as u32);
        assert(e0 + (vstd::utf8::encode_utf8(a.drop_first()) + vstd::utf8::encode_utf8(b)) =~= (e0
            + vstd::utf8::encode_utf8(a.drop_first())) + vstd::utf8::encode_utf8(b));
    }
}

/// A signature is "sig:" then sixteen lowercase hexadecimal digits that read back as
/// the FNV-1a 64 hash of the signer's UTF-8 bytes, one ':' byte (0x3A), and the
/// payload's UTF-8 bytes.
pub proof fn law_signature_reads_back(signer_did: Seq<char>, payload: Seq<char>)
    ensures
        sign_spec(signer_did, payload).take(4) == "sig:"@,
        sign_spec(signer_did, payload).len() == 20,
        forall|i: int| 4 <= i < 20 ==> is_hex_digit(#[trigger] sign_spec(signer_did, payload)[i]),
        numeral_value(sign_spec(signer_did, payload).skip(4), 16) == fnv1a64_spec(
            vstd::utf8::encode_utf8(signer_did) + seq![0x3Au8] + vstd::utf8::encode_utf8(payload),
        ),
{
    reveal_strlit("sig:");
    reveal_strlit(":");
    let colon = ":"@;
    assert(colon.len() == 1 && colon[0] == ':');
    lemma_encode_concat(signer_did, colon);
    lemma_encode_concat(signer_did + colon, payload);
    assert(colon.drop_first() =~= Seq::<char>::empty());
    assert((58u32 & 0x7Fu32) as u8 == 58u8) by (bit_vector);
    assert((':' as u32) == 58u32);
    assert(vstd::utf8::has_width_1_encoding(colon[0] as u32));
    assert(vstd::utf8::encode_scalar(colon[0] as u32) =~= seq![0x3Au8]);
    assert(vstd::utf8::encode_utf8(colon.drop_first()) =~= Seq::<u8>::empty());
    assert(vstd::utf8::encode_utf8(colon) == vstd::utf8::encode_scalar(colon[0] as u32)
        + vstd::utf8::encode_utf8(colon.drop_first()));
    assert(vstd::utf8::encode_utf8(colon) =~= seq![0x3Au8]);
    let h = fnv1a64_spec(vstd::utf8::encode_utf8(signer_did + colon + payload));
    law_hex_digits_read_back(h as nat, 16);
    let sig = sign_spec(signer_did, payload);
    assert(sig.skip(4) =~= hex_digits(h as nat, 16));
    assert(sig.take(4) =~= "sig:"@);
    assert forall|i: int| 4 <= i < 20 implies is_hex_digit(#[trigger] sig[i]) by {
        assert(sig[i] == hex_digits(h as nat, 16)[i - 4]);
    }
}

/// The number of line feeds in `text`.
pub open spec fn line_feeds(text: Seq<char>) -> nat
    decreases text.len(),
{
    if text.len() == 0 {
        0
    } else {
        line_feeds(text.drop_last()) + if text.last() == '\n' { 1nat } else { 0nat }
    }
}

/// Counting lines: every line feed ends a line, and a last line without a line feed
/// counts too; an empty text has no lines.
pub proof fn law_line_count(text: Seq<char>)
    ensures
        crate::workspace::line_count_spec(text) == line_feeds(text) + if text.len() > 0
            && text.last() != '\n' { 1nat } else { 0nat },
    decreases text.len(),
{
    if text.len() > 0 {
        law_line_count(text.drop_last());
    }
}

/// The members of a request that a list holds are the request filtered by the list,
/// in the request's order.
pub proof fn law_members_in_is_filter(caps: Seq<Capability>, set: Seq<Capability>)
    ensures
        members_in(caps, set) == caps.filter(|c: Capability| set.contains(c)),
    decreases caps.len(),
{
    reveal(Seq::filter);
    if caps.len() > 0 {
        law_members_in_is_filter(caps.drop_last(), set);
    }
}

/// Directories are listed before files; entries of the same kind are listed by the
/// byte order of their lowercase names.
pub proof fn law_directories_first(a: crate::workspace::WorkspaceNode, b: crate::workspace::WorkspaceNode)
    ensures
        a.kind == crate::workspace::WorkspaceNodeKind::Directory && b.kind
            == crate::workspace::WorkspaceNodeKind::File ==> crate::workspace::node_before(a, b)
            && !crate::workspace::node_before(b, a),
        a.kind == b.kind ==> (crate::workspace::node_before(a, b) <==> crate::text::text_lt(
            crate::workspace::lowercase(a.name@),
            crate::workspace::lowercase(b.name@),
        )),
{
}

/// A path lies inside a root exactly when it is the root's components followed by
/// more components.
pub proof fn law_path_within(path: Seq<Seq<u8>>, root: Seq<Seq<u8>>, rest: Seq<Seq<u8>>)
    ensures
        crate::workspace::path_within(root + rest, root),
        crate::workspace::path_within(path, root) ==> path == root + path.skip(root.len() as int),
{
    assert((root + rest).take(root.len() as int) =~= root);
    if crate::workspace::path_within(path, root) {
        assert(path =~= path.take(root.len() as int) + path.skip(root.len() as int));
    }
}

/// The report stops at the first event whose signature does not verify: every event
/// before it verifies; with no such event, every event verifies.
pub proof fn law_first_forged(evs: Seq<crate::ledger::SignedEvent>)
    ensures
        crate::app::first_forged(evs) matches Some(i) ==> 0 <= i < evs.len() && !evs[i].authentic()
            && forall|j: int| 0 <= j < i ==> (#[trigger] evs[j]).authentic(),
        crate::app::first_forged(evs) is None ==> crate::app::all_authentic(evs),
    decreases evs.len(),
{
    if evs.len() > 0 {
        let init = evs.drop_last();
        law_first_forged(init);
        assert forall|j: int| 0 <= j < init.len() implies init[j] == evs[j] by {}
    }
}

/// The last `n` hexadecimal digits of a number are `n` characters.
pub proof fn lemma_hex_digits_len(v: nat, n: nat)
    ensures
        hex_digits(v, n).len() == n,
    decreases n,
{
    if n > 0 {
        lemma_hex_digits_len(v / 16, (n - 1) as nat);
    }
}

/// Every signature is "sig:" followed by sixteen hexadecimal digits.
pub proof fn law_signature_shape(signer_did: Seq<char>, payload: Seq<char>)
    ensures
        sign_spec(signer_did, payload).len() == 20,
        sign_spec(signer_did, payload).take(4) == "sig:"@,
{
    reveal_strlit("sig:");
    let h = crate::crypto::fnv1a64_spec(vstd::utf8::encode_utf8(signer_did + ":"@ + payload));
    lemma_hex_digits_len(h as nat, 16);
    assert(sign_spec(signer_did, payload).take(4) =~= "sig:"@);
}

} // verus!
