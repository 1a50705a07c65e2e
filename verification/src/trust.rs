//! The trust graph: known identities, keyed by DID and kept in DID order.
use vstd::prelude::*;
use crate::domain::Identity;
use crate::text::{
    lemma_bytes_lt_irreflexive, lemma_bytes_lt_total, lemma_bytes_lt_transitive,
    lemma_encode_injective, text_eq, text_less, text_lt,
};

verus! {

/// Each identity's DID orders strictly before the DID of every later identity.
pub open spec fn ordered_by_did(s: Seq<Identity>) -> bool {
    forall|i: int, j: int| 0 <= i < j < s.len() ==> text_lt(#[trigger] s[i].did@, #[trigger] s[j].did@)
}

/// `s` with `id` put in DID order, in place of an identity with the same DID if any.
pub open spec fn insert_by_did(s: Seq<Identity>, id: Identity) -> Seq<Identity>
    decreases s.len(),
{
    if s.len() == 0 {
        seq![id]
    } else if text_lt(s[0].did@, id.did@) {
        seq![s[0]] + insert_by_did(s.drop_first(), id)
    } else if s[0].did@ == id.did@ {
        seq![id] + s.drop_first()
    } else {
        seq![id] + s
    }
}

/// The identity with DID `did` in `s`, if there is one.
pub open spec fn lookup(s: Seq<Identity>, did: Seq<char>) -> Option<Identity> {
    if exists|i: int| 0 <= i < s.len() && (#[trigger] s[i]).did@ == did {
        Some(s[choose|i: int| 0 <= i < s.len() && (#[trigger] s[i]).did@ == did])
    } else {
        None
    }
}

/// Text order is a strict order.
pub proof fn lemma_text_lt_strict(a: Seq<char>, b: Seq<char>, c: Seq<char>)
    ensures
        !text_lt(a, a),
        text_lt(a, b) && text_lt(b, c) ==> text_lt(a, c),
        a != b ==> text_lt(a, b) || text_lt(b, a),
        text_lt(a, b) ==> a != b,
{
    let ea = vstd::utf8::encode_utf8(a);
    let eb = vstd::utf8::encode_utf8(b);
    let ec = vstd::utf8::encode_utf8(c);
    lemma_bytes_lt_irreflexive(ea);
    if text_lt(a, b) && text_lt(b, c) {
        lemma_bytes_lt_transitive(ea, eb, ec);
    }
    if a != b {
        if ea == eb {
            lemma_encode_injective(a, b);
        }
        lemma_bytes_lt_total(ea, eb);
    }
}

/// In a DID-ordered listing, DIDs are distinct.
pub proof fn lemma_ordered_distinct(s: Seq<Identity>, i: int, j: int)
    requires
        ordered_by_did(s),
        0 <= i < s.len(),
        0 <= j < s.len(),
        i != j,
    ensures
        s[i].did@ != s[j].did@,
{
    if i < j {
        lemma_text_lt_strict(s[i].did@, s[j].did@, s[j].did@);
    } else {
        lemma_text_lt_strict(s[j].did@, s[i].did@, s[i].did@);
    }
}

/// In a DID-ordered listing, `lookup` finds the identity at a position with that DID.
pub proof fn lemma_lookup_at(s: Seq<Identity>, i: int)
    requires
        ordered_by_did(s),
        0 <= i < s.len(),
    ensures
        lookup(s, s[i].did@) == Some(s[i]),
{
    let did = s[i].did@;
    assert(exists|j: int| 0 <= j < s.len() && (#[trigger] s[j]).did@ == did) by {
        assert(s[i].did@ == did);
    }
    assert forall|j: int| 0 <= j < s.len() && (#[trigger] s[j]).did@ == did implies j == i by {
        if j != i {
            lemma_ordered_distinct(s, i, j);
        }
    }
}

/// When every identity before position `i` has a smaller DID than `id`, inserting
/// `id` leaves that prefix in place.
proof fn lemma_insert_prefix(s: Seq<Identity>, id: Identity, i: int)
    requires
        0 <= i <= s.len(),
        forall|k: int| 0 <= k < i ==> text_lt((#[trigger] s[k]).did@, id.did@),
    ensures
        insert_by_did(s, id) == s.take(i) + insert_by_did(s.skip(i), id),
    decreases i,
{
    if i == 0 {
        assert(s.take(0) + insert_by_did(s.skip(0), id) =~= insert_by_did(s, id)) by {
            assert(s.skip(0) =~= s);
        }
    } else {
        let t = s.drop_first();
        assert forall|k: int| 0 <= k < i - 1 implies text_lt((#[trigger] t[k]).did@, id.did@) by {
            assert(t[k] == s[k + 1]);
        }
        lemma_insert_prefix(t, id, i - 1);
        assert(t.skip(i - 1) =~= s.skip(i));
        assert(s.take(i) =~= seq![s[0]] + t.take(i - 1));
        assert(insert_by_did(s, id) == seq![s[0]] + insert_by_did(t, id));
        assert(seq![s[0]] + (t.take(i - 1) + insert_by_did(s.skip(i), id)) =~= s.take(i)
            + insert_by_did(s.skip(i), id));
    }
}

/// Inserting into a DID-ordered listing keeps it DID-ordered, and the result holds
/// `id` and exactly the identities of `s` whose DID differs from `id`'s.
pub proof fn lemma_insert_contents(s: Seq<Identity>, id: Identity)
    requires
        ordered_by_did(s),
    ensures
        ordered_by_did(insert_by_did(s, id)),
        forall|x: Identity| #[trigger] insert_by_did(s, id).contains(x) <==> (x == id || (s.contains(x)
            && x.did@ != id.did@)),
        insert_by_did(s, id).len() == s.len() + (if lookup(s, id.did@) is Some { 0int } else { 1int }),
    decreases s.len(),
{
    let r = insert_by_did(s, id);
    if s.len() == 0 {
        assert forall|x: Identity| r.contains(x) <==> x == id by {
            if r.contains(x) {
                assert(r[0] == x);
            }
            if x == id {
                assert(r[0] == x);
            }
        }
    } else {
        let t = s.drop_first();
        assert forall|i: int, j: int| 0 <= i < j < t.len() implies text_lt(
            #[trigger] t[i].did@,
            #[trigger] t[j].did@,
        ) by {
            assert(t[i] == s[i + 1] && t[j] == s[j + 1]);
        }
        assert forall|x: Identity| t.contains(x) implies s.contains(x) && text_lt(s[0].did@, x.did@) by {
            let k = choose|k: int| 0 <= k < t.len() && #[trigger] t[k] == x;
            assert(s[k + 1] == x);
        }
        assert forall|x: Identity| s.contains(x) implies x == s[0] || t.contains(x) by {
            let k = choose|k: int| 0 <= k < s.len() && #[trigger] s[k] == x;
            if k > 0 {
                assert(t[k - 1] == x);
            }
        }
        assert(s.contains(s[0]));
        if text_lt(s[0].did@, id.did@) {
            lemma_insert_contents(t, id);
            let rt = insert_by_did(t, id);
            assert(r == seq![s[0]] + rt);
            lemma_text_lt_strict(s[0].did@, id.did@, id.did@);
            assert forall|x: Identity| r.contains(x) <==> (x == id || (s.contains(x) && x.did@
                != id.did@)) by {
                if r.contains(x) {
                    let k = choose|k: int| 0 <= k < r.len() && #[trigger] r[k] == x;
                    if k > 0 {
                        assert(rt[k - 1] == x);
                        assert(rt.contains(x));
                    } else {
                        assert(s.contains(x));
                    }
                }
                if x == id || (s.contains(x) && x.did@ != id.did@) {
                    if x == s[0] {
                        assert(r[0] == x);
                    } else {
                        assert(rt.contains(x));
                        let k = choose|k: int| 0 <= k < rt.len() && #[trigger] rt[k] == x;
                        assert(r[k + 1] == x);
                    }
                }
            }
            assert forall|i: int, j: int| 0 <= i < j < r.len() implies text_lt(
                #[trigger] r[i].did@,
                #[trigger] r[j].did@,
            ) by {
                if i == 0 {
                    assert(rt.contains(r[j])) by {
                        assert(rt[j - 1] == r[j]);
                    }
                    if r[j] == id {
                    } else {
                        assert(t.contains(r[j]));
                    }
                } else {
                    assert(r[i] == rt[i - 1] && r[j] == rt[j - 1]);
                }
            }
            if lookup(s, id.did@) is Some {
                let k = choose|k: int| 0 <= k < s.len() && (#[trigger] s[k]).did@ == id.did@;
                if k == 0 {
                    lemma_text_lt_strict(s[0].did@, id.did@, id.did@);
                }
                assert(t[k - 1].did@ == id.did@);
                assert(lookup(t, id.did@) is Some);
            } else {
                if lookup(t, id.did@) is Some {
                    let k = choose|k: int| 0 <= k < t.len() && (#[trigger] t[k]).did@ == id.did@;
                    assert(s[k + 1].did@ == id.did@);
                }
            }
        } else if s[0].did@ == id.did@ {
            assert(r == seq![id] + t);
            assert forall|x: Identity| r.contains(x) <==> (x == id || (s.contains(x) && x.did@
                != id.did@)) by {
                if r.contains(x) {
                    let k = choose|k: int| 0 <= k < r.len() && #[trigger] r[k] == x;
                    if k > 0 {
                        assert(t[k - 1] == x);
                        assert(t.contains(x));
                        lemma_text_lt_strict(s[0].did@, x.did@, x.did@);
                    }
                }
                if x == id {
                    assert(r[0] == x);
                } else if s.contains(x) && x.did@ != id.did@ {
                    assert(x != s[0]);
                    assert(t.contains(x));
                    let k = choose|k: int| 0 <= k < t.len() && #[trigger] t[k] == x;
                    assert(r[k + 1] == x);
                }
            }
            assert forall|i: int, j: int| 0 <= i < j < r.len() implies text_lt(
                #[trigger] r[i].did@,
                #[trigger] r[j].did@,
            ) by {
                assert(r[j] == s[j]);
                if i > 0 {
                    assert(r[i] == s[i]);
                }
            }
            assert(s[0].did@ == id.did@);
            assert(lookup(s, id.did@) is Some);
        } else {
            assert(r == seq![id] + s);
            lemma_text_lt_strict(s[0].did@, id.did@, id.did@);
            assert(text_lt(id.did@, s[0].did@));
            assert forall|x: Identity| s.contains(x) implies text_lt(id.did@, x.did@) by {
                if x != s[0] {
                    lemma_text_lt_strict(id.did@, s[0].did@, x.did@);
                }
            }
            assert forall|x: Identity| r.contains(x) <==> (x == id || (s.contains(x) && x.did@
                != id.did@)) by {
                if r.contains(x) {
                    let k = choose|k: int| 0 <= k < r.len() && #[trigger] r[k] == x;
                    if k > 0 {
                        assert(s[k - 1] == x);
                        lemma_text_lt_strict(id.did@, x.did@, x.did@);
                    }
                }
                if x == id {
                    assert(r[0] == x);
                } else if s.contains(x) {
                    let k = choose|k: int| 0 <= k < s.len() && #[trigger] s[k] == x;
                    assert(r[k + 1] == x);
                }
            }
            assert forall|i: int, j: int| 0 <= i < j < r.len() implies text_lt(
                #[trigger] r[i].did@,
                #[trigger] r[j].did@,
            ) by {
                assert(r[j] == s[j - 1]);
                assert(s.contains(s[j - 1]));
                if i > 0 {
                    assert(r[i] == s[i - 1]);
                }
            }
            if lookup(s, id.did@) is Some {
                let k = choose|k: int| 0 <= k < s.len() && (#[trigger] s[k]).did@ == id.did@;
                assert(s.contains(s[k]));
                lemma_text_lt_strict(id.did@, s[k].did@, s[k].did@);
            }
        }
    }
}

/// Reading after a write: in a DID-ordered listing, after inserting `id` the lookup of
/// its DID gives `id`, and the lookup of any other DID is what it was.
pub proof fn lemma_lookup_insert(s: Seq<Identity>, id: Identity, did: Seq<char>)
    requires
        ordered_by_did(s),
    ensures
        lookup(insert_by_did(s, id), did) == (if did == id.did@ { Some(id) } else { lookup(s, did) }),
{
    lemma_insert_contents(s, id);
    let r = insert_by_did(s, id);
    if did == id.did@ {
        assert(r.contains(id));
        let k = choose|k: int| 0 <= k < r.len() && #[trigger] r[k] == id;
        lemma_lookup_at(r, k);
    } else {
        if lookup(s, did) is Some {
            let k = choose|k: int| 0 <= k < s.len() && (#[trigger] s[k]).did@ == did;
            lemma_lookup_at(s, k);
            assert(s.contains(s[k]));
            assert(r.contains(s[k]));
            let j = choose|j: int| 0 <= j < r.len() && #[trigger] r[j] == s[k];
            lemma_lookup_at(r, j);
        } else {
            if lookup(r, did) is Some {
                let j = choose|j: int| 0 <= j < r.len() && (#[trigger] r[j]).did@ == did;
                assert(r.contains(r[j]));
                assert(s.contains(r[j]));
                let k = choose|k: int| 0 <= k < s.len() && #[trigger] s[k] == r[j];
                assert(s[k].did@ == did);
            }
        }
    }
}

/// Identities known to the runtime, at most one per DID.
#[derive(Debug)]
pub struct TrustGraph {
    identities: Vec<Identity>,
}

impl View for TrustGraph {
    type V = Seq<Identity>;

    /// The known identities, in DID order.
    closed spec fn view(&self) -> Seq<Identity> {
        self.identities@
    }
}

impl TrustGraph {
    #[verifier::type_invariant]
    spec fn well_ordered(self) -> bool {
        ordered_by_did(self.identities@)
    }

    /// An empty graph.
    pub fn new() -> (g: Self)
        ensures
            g@ == Seq::<Identity>::empty(),
    {
        TrustGraph { identities: Vec::new() }
    }

    /// Adds `identity`, replacing any identity with the same DID.
    pub fn insert(&mut self, identity: Identity)
        ensures
            final(self)@ == insert_by_did(old(self)@, identity),
            ordered_by_did(final(self)@),
    {
        proof {
            use_type_invariant(&*self);
        }
        let mut items: Vec<Identity> = Vec::new();
        std::mem::swap(&mut items, &mut self.identities);
        let ghost before = items@;
        let mut i: usize = 0;
        while i < items.len() && text_less(items[i].did.as_str(), identity.did.as_str())
            invariant
                items@ == before,
                ordered_by_did(before),
                i <= items.len(),
                forall|k: int| 0 <= k < i ==> text_lt((#[trigger] before[k]).did@, identity.did@),
            decreases items.len() - i,
        {
            i = i + 1;
        }
        proof {
            lemma_insert_prefix(before, identity, i as int);
        }
        if i < items.len() && text_eq(items[i].did.as_str(), identity.did.as_str()) {
            proof {
                let rest = before.skip(i as int);
                assert(rest[0] == before[i as int]);
                assert(insert_by_did(rest, identity) == seq![identity] + rest.drop_first());
                let after = before.update(i as int, identity);
                assert(after =~= before.take(i as int) + (seq![identity] + rest.drop_first()));
                assert forall|a: int, b: int| 0 <= a < b < after.len() implies text_lt(
                    #[trigger] after[a].did@,
                    #[trigger] after[b].did@,
                ) by {
                    assert(text_lt(before[a].did@, before[b].did@));
                }
            }
            items.set(i, identity);
        } else {
            proof {
                let rest = before.skip(i as int);
                if i < items.len() {
                    assert(rest[0] == before[i as int]);
                    assert(!text_lt(before[i as int].did@, identity.did@));
                    lemma_text_lt_strict(identity.did@, before[i as int].did@, before[i as int].did@);
                    assert(text_lt(identity.did@, before[i as int].did@));
                    assert(insert_by_did(rest, identity) == seq![identity] + rest);
                } else {
                    assert(rest.len() == 0);
                }
                let after = before.insert(i as int, identity);
                assert(after =~= before.take(i as int) + (seq![identity] + rest));
                assert forall|a: int, b: int| 0 <= a < b < after.len() implies text_lt(
                    #[trigger] after[a].did@,
                    #[trigger] after[b].did@,
                ) by {
                    if b < i {
                    } else if b == i {
                    } else if a < i {
                        assert(after[b] == before[b - 1]);
                    } else if a == i {
                        assert(after[b] == before[b - 1]);
                        if b - 1 > i {
                            assert(text_lt(before[i as int].did@, before[b - 1].did@));
                            lemma_text_lt_strict(
                                identity.did@,
                                before[i as int].did@,
                                before[b - 1].did@,
                            );
                        }
                    } else {
                        assert(after[a] == before[a - 1]);
                        assert(after[b] == before[b - 1]);
                    }
                }
            }
            items.insert(i, identity);
        }
        self.identities = items;
    }

    /// The identity with DID `did`, if known.
    pub fn get(&self, did: &str) -> (r: Option<&Identity>)
        ensures
            ordered_by_did(self@),
            r matches Some(id) ==> lookup(self@, did@) == Some(*id),
            r is None ==> lookup(self@, did@) is None,
    {
        proof {
            use_type_invariant(self);
        }
        let mut i: usize = 0;
        while i < self.identities.len()
            invariant
                i <= self.identities.len(),
                ordered_by_did(self.identities@),
                forall|k: int| 0 <= k < i ==> (#[trigger] self.identities@[k]).did@ != did@,
            decreases self.identities.len() - i,
        {
            if text_eq(self.identities[i].did.as_str(), did) {
                proof {
                    lemma_lookup_at(self.identities@, i as int);
                }
                return Some(&self.identities[i]);
            }
            i = i + 1;
        }
        None
    }

    /// The known identities, in DID order.
    pub fn identities(&self) -> (s: &[Identity])
        ensures
            s@ == self@,
            ordered_by_did(self@),
    {
        proof {
            use_type_invariant(self);
        }
        self.identities.as_slice()
    }
}

} // verus!
