//! Capabilities that an action may request, and ordered sets of them.
use vstd::prelude::*;
use crate::text::join;

verus! {

/// Something an identity may be allowed to do. Capabilities are ordered as declared.
#[derive(Clone, Copy, Debug, PartialEq, Eq, Structural, PartialOrd, Ord, Hash)]
pub enum Capability {
    ReadWorkspace,
    WriteWorkspace,
    RunTerminalCommand,
    NetworkAccess,
    ReviewOnly,
}

/// The position of `c` in declaration order, which is the order of capabilities.
pub open spec fn rank(c: Capability) -> int {
    match c {
        Capability::ReadWorkspace => 0,
        Capability::WriteWorkspace => 1,
        Capability::RunTerminalCommand => 2,
        Capability::NetworkAccess => 3,
        Capability::ReviewOnly => 4,
    }
}

/// The text that names `c`.
pub open spec fn capability_label(c: Capability) -> Seq<char> {
    match c {
        Capability::ReadWorkspace => "workspace.read"@,
        Capability::WriteWorkspace => "workspace.write"@,
        Capability::RunTerminalCommand => "terminal.run"@,
        Capability::NetworkAccess => "network.access"@,
        Capability::ReviewOnly => "review.only"@,
    }
}

/// The labels of `caps`, in the same order.
pub open spec fn labels(caps: Seq<Capability>) -> Seq<Seq<char>> {
    caps.map_values(|c: Capability| capability_label(c))
}

/// The labels of `caps` joined with ", ".
pub open spec fn joined_labels(caps: Seq<Capability>) -> Seq<char> {
    join(labels(caps), ", "@)
}

/// Every capability in `caps` ranks strictly below the one after it: the listing is
/// in order and holds no capability twice.
pub open spec fn strictly_ranked(caps: Seq<Capability>) -> bool {
    forall|i: int, j: int| 0 <= i < j < caps.len() ==> rank(#[trigger] caps[i]) < rank(#[trigger] caps[j])
}

/// `a` and `b` hold the same capabilities.
pub open spec fn same_members(a: Seq<Capability>, b: Seq<Capability>) -> bool {
    forall|c: Capability| a.contains(c) <==> b.contains(c)
}

impl Capability {
    /// The position of this capability in the order of capabilities.
    pub fn rank(&self) -> (r: u8)
        ensures
            r == rank(*self),
    {
        match self {
            Capability::ReadWorkspace => 0,
            Capability::WriteWorkspace => 1,
            Capability::RunTerminalCommand => 2,
            Capability::NetworkAccess => 3,
            Capability::ReviewOnly => 4,
        }
    }

    /// The text that names this capability.
    pub fn to_string(&self) -> (s: String)
        ensures
            s@ == capability_label(*self),
    {
        match self {
            Capability::ReadWorkspace => String::from_str("workspace.read"),
            Capability::WriteWorkspace => String::from_str("workspace.write"),
            Capability::RunTerminalCommand => String::from_str("terminal.run"),
            Capability::NetworkAccess => String::from_str("network.access"),
            Capability::ReviewOnly => String::from_str("review.only"),
        }
    }
}

/// Two capabilities of equal rank are the same capability.
pub proof fn lemma_rank_injective(a: Capability, b: Capability)
    requires
        rank(a) == rank(b),
    ensures
        a == b,
{
}

/// In a strictly ranked listing, a capability occurs after the first position exactly
/// when it is a member other than the first.
proof fn lemma_drop_first_members(a: Seq<Capability>, c: Capability)
    requires
        strictly_ranked(a),
        a.len() > 0,
    ensures
        a.drop_first().contains(c) <==> (a.contains(c) && c != a[0]),
{
    if a.drop_first().contains(c) {
        let k = choose|k: int| 0 <= k < a.len() - 1 && #[trigger] a.drop_first()[k] == c;
        assert(a[k + 1] == c);
        assert(rank(a[0]) < rank(a[k + 1]));
    }
    if a.contains(c) && c != a[0] {
        let k = choose|k: int| 0 <= k < a.len() && #[trigger] a[k] == c;
        assert(k != 0);
        assert(a.drop_first()[k - 1] == c);
    }
}

/// A capability is in `s.push(x)` exactly when it is `x` or in `s`.
pub proof fn lemma_contains_push(s: Seq<Capability>, x: Capability, c: Capability)
    ensures
        s.push(x).contains(c) <==> (s.contains(c) || c == x),
{
    if s.push(x).contains(c) {
        let k = choose|k: int| 0 <= k < s.len() + 1 && #[trigger] s.push(x)[k] == c;
        if k < s.len() {
            assert(s[k] == c);
        }
    }
    if s.contains(c) {
        let k = choose|k: int| 0 <= k < s.len() && #[trigger] s[k] == c;
        assert(s.push(x)[k] == c);
    }
    if c == x {
        assert(s.push(x)[s.len() as int] == c);
    }
}

/// A set has exactly one listing in capability order: two strictly ranked listings
/// with the same members are the same listing.
pub proof fn lemma_listing_unique(a: Seq<Capability>, b: Seq<Capability>)
    requires
        strictly_ranked(a),
        strictly_ranked(b),
        same_members(a, b),
    ensures
        a == b,
    decreases a.len(),
{
    if a.len() == 0 {
        if b.len() > 0 {
            assert(b.contains(b[0]));
        }
        assert(a =~= b);
    } else {
        assert(a.contains(a[0]));
        assert(b.len() > 0);
        assert(b.contains(b[0]));
        let i = choose|i: int| 0 <= i < b.len() && #[trigger] b[i] == a[0];
        let j = choose|j: int| 0 <= j < a.len() && #[trigger] a[j] == b[0];
        if i > 0 {
            assert(rank(b[0]) < rank(b[i]));
        }
        if j > 0 {
            assert(rank(a[0]) < rank(a[j]));
        }
        assert(a[0] == b[0]);
        assert forall|c: Capability| a.drop_first().contains(c) <==> b.drop_first().contains(c) by {
            lemma_drop_first_members(a, c);
            lemma_drop_first_members(b, c);
        }
        assert(strictly_ranked(a.drop_first()));
        assert(strictly_ranked(b.drop_first()));
        lemma_listing_unique(a.drop_first(), b.drop_first());
        assert(a =~= seq![a[0]] + a.drop_first());
        assert(b =~= seq![b[0]] + b.drop_first());
    }
}

/// A set of capabilities, kept in capability order without repetition.
#[derive(Debug)]
pub struct CapabilitySet {
    items: Vec<Capability>,
}

impl View for CapabilitySet {
    type V = Seq<Capability>;

    /// The members, in capability order.
    closed spec fn view(&self) -> Seq<Capability> {
        self.items@
    }
}

impl CapabilitySet {
    #[verifier::type_invariant]
    spec fn well_ordered(self) -> bool {
        strictly_ranked(self.items@)
    }

    /// An empty set.
    pub fn new() -> (s: Self)
        ensures
            s@ == Seq::<Capability>::empty(),
    {
        CapabilitySet { items: Vec::new() }
    }

    /// The set of the capabilities in `caps`.
    pub fn from_slice(caps: &[Capability]) -> (s: Self)
        ensures
            strictly_ranked(s@),
            same_members(s@, caps@),
    {
        let mut s = CapabilitySet::new();
        let mut i: usize = 0;
        while i < caps.len()
            invariant
                i <= caps.len(),
                strictly_ranked(s@),
                same_members(s@, caps@.take(i as int)),
            decreases caps.len() - i,
        {
            let ghost prev = s@;
            s.insert(caps[i]);
            proof {
                assert(caps@.take(i + 1) =~= caps@.take(i as int).push(caps@[i as int]));
                assert forall|c: Capability| s@.contains(c) <==> caps@.take(i + 1).contains(c) by {
                    lemma_contains_push(prev, caps@[i as int], c);
                    lemma_contains_push(caps@.take(i as int), caps@[i as int], c);
                    assert(s@.contains(c) <==> prev.push(caps@[i as int]).contains(c));
                    assert(prev.contains(c) <==> caps@.take(i as int).contains(c));
                }
            }
            i = i + 1;
        }
        proof {
            assert(caps@.take(caps.len() as int) =~= caps@);
        }
        s
    }

    /// Whether `c` is a member.
    pub fn contains(&self, c: Capability) -> (r: bool)
        ensures
            r == self@.contains(c),
    {
        let mut i: usize = 0;
        while i < self.items.len()
            invariant
                i <= self.items.len(),
                forall|k: int| 0 <= k < i ==> self.items@[k] != c,
            decreases self.items.len() - i,
        {
            if self.items[i] == c {
                return true;
            }
            i = i + 1;
        }
        false
    }

    /// Adds `c`; returns whether it was not already a member.
    pub fn insert(&mut self, c: Capability) -> (added: bool)
        ensures
            added == !old(self)@.contains(c),
            strictly_ranked(final(self)@),
            same_members(final(self)@, old(self)@.push(c)),
    {
        proof {
            use_type_invariant(&*self);
        }
        let mut items: Vec<Capability> = Vec::new();
        std::mem::swap(&mut items, &mut self.items);
        let ghost before = items@;
        let mut i: usize = 0;
        let r = c.rank();
        while i < items.len() && items[i].rank() < r
            invariant
                items@ == before,
                strictly_ranked(before),
                i <= items.len(),
                r == rank(c),
                forall|k: int| 0 <= k < i ==> rank(#[trigger] before[k]) < rank(c),
            decreases items.len() - i,
        {
            i = i + 1;
        }
        let added = if i < items.len() && items[i] == c {
            false
        } else {
            proof {
                if i < items.len() {
                    assert(rank(before[i as int]) >= rank(c));
                    if rank(before[i as int]) == rank(c) {
                        lemma_rank_injective(before[i as int], c);
                    }
                }
                let after = before.insert(i as int, c);
                assert forall|a: int, b: int| 0 <= a < b < after.len() implies rank(
                    #[trigger] after[a],
                ) < rank(#[trigger] after[b]) by {
                    if a < i && b < i {
                    } else if a < i && b == i {
                    } else if a < i {
                        assert(after[b] == before[b - 1]);
                    } else if a == i {
                        assert(after[b] == before[b - 1]);
                        assert(rank(before[i as int]) > rank(c));
                        if b - 1 > i {
                            assert(rank(before[i as int]) < rank(before[b - 1]));
                        }
                    } else {
                        assert(after[a] == before[a - 1]);
                        assert(after[b] == before[b - 1]);
                    }
                }
            }
            items.insert(i, c);
            true
        };
        proof {
            assert forall|x: Capability| items@.contains(x) <==> before.push(c).contains(x) by {
                if before.push(c).contains(x) {
                    let k = choose|k: int| 0 <= k < before.len() + 1 && #[trigger] before.push(c)[k] == x;
                    if k == before.len() {
                        if added {
                            assert(items@[i as int] == x);
                        } else {
                            assert(items@[i as int] == x);
                        }
                    } else if added && k >= i {
                        assert(items@[k + 1] == x);
                    } else {
                        assert(items@[k] == x);
                    }
                }
                if items@.contains(x) {
                    let k = choose|k: int| 0 <= k < items@.len() && #[trigger] items@[k] == x;
                    if added && k == i {
                        assert(before.push(c)[before.len() as int] == x);
                    } else if added && k > i {
                        assert(before.push(c)[k - 1] == x);
                    } else {
                        assert(before.push(c)[k] == x);
                    }
                }
            }
            if !added {
                assert(before.contains(c));
            } else {
                assert forall|k: int| 0 <= k < before.len() implies before[k] != c by {
                    if k < i {
                    } else {
                        assert(rank(before[k]) >= rank(before[i as int]));
                    }
                }
            }
        }
        self.items = items;
        added
    }

    /// The members, in capability order.
    pub fn as_slice(&self) -> (s: &[Capability])
        ensures
            s@ == self@,
            strictly_ranked(self@),
    {
        proof {
            use_type_invariant(self);
        }
        self.items.as_slice()
    }

    /// The number of members.
    pub fn len(&self) -> (n: usize)
        ensures
            n == self@.len(),
    {
        self.items.len()
    }

    /// Whether there are no members.
    pub fn is_empty(&self) -> (b: bool)
        ensures
            b == (self@.len() == 0),
    {
        self.items.len() == 0
    }

    /// The labels of the members, in capability order.
    pub fn to_strings(&self) -> (v: Vec<String>)
        ensures
            v@.map_values(|s: String| s@) == labels(self@),
    {
        label_strings(self.items.as_slice())
    }

    /// The labels of the members, in capability order, joined with ", ".
    pub fn joined_labels(&self) -> (s: String)
        ensures
            s@ == joined_labels(self@),
    {
        join_labels(self.items.as_slice())
    }
}

impl Clone for CapabilitySet {
    fn clone(&self) -> (s: Self)
        ensures
            s@ == self@,
    {
        proof {
            use_type_invariant(self);
        }
        let mut items: Vec<Capability> = Vec::new();
        let mut i: usize = 0;
        while i < self.items.len()
            invariant
                i <= self.items.len(),
                items@ == self.items@.take(i as int),
            decreases self.items.len() - i,
        {
            items.push(self.items[i]);
            proof {
                assert(items@ =~= self.items@.take(i + 1));
            }
            i = i + 1;
        }
        proof {
            assert(items@ =~= self.items@);
        }
        CapabilitySet { items }
    }
}

/// The labels of `caps`, in the same order.
pub fn label_strings(caps: &[Capability]) -> (v: Vec<String>)
    ensures
        v@.map_values(|s: String| s@) == labels(caps@),
{
    let mut v: Vec<String> = Vec::new();
    let mut i: usize = 0;
    while i < caps.len()
        invariant
            i <= caps.len(),
            v@.len() == i,
            forall|k: int| 0 <= k < i ==> (#[trigger] v@[k])@ == capability_label(caps@[k]),
        decreases caps.len() - i,
    {
        v.push(caps[i].to_string());
        i = i + 1;
    }
    proof {
        assert(v@.map_values(|s: String| s@) =~= labels(caps@));
    }
    v
}

/// The labels of `caps`, in the same order, joined with ", ".
pub fn join_labels(caps: &[Capability]) -> (s: String)
    ensures
        s@ == joined_labels(caps@),
{
    let parts = label_strings(caps);
    crate::text::join_strings(&parts, ", ")
}

} // verus!
