//! Decisions of the desktop shell's workspace browser: which entries are hidden, how
//! entries are ordered, whether a path lies inside the workspace, how many lines a
//! file has.
use vstd::prelude::*;
use std::cmp::Ordering;
use crate::text::{text_eq, text_less, text_lt};
use crate::trust::lemma_text_lt_strict;

verus! {

/// Whether the directory entry called `name` is hidden from the workspace tree.
pub open spec fn hidden_name(name: Seq<char>) -> bool {
    name == ".git"@ || name == "target"@ || name == "node_modules"@
}

/// Whether the entry called `name` is left out of the workspace tree.
pub fn should_skip(name: &str) -> (skip: bool)
    ensures
        skip == hidden_name(name@),
{
    text_eq(name, ".git") || text_eq(name, "target") || text_eq(name, "node_modules")
}

/// The number of lines of `text`: a line starts at the first character and after
/// each line feed, so a final line feed starts no line.
pub open spec fn line_count_spec(text: Seq<char>) -> nat
    decreases text.len(),
{
    if text.len() == 0 {
        0
    } else if text.drop_last().len() == 0 || text.drop_last().last() == '\n' {
        line_count_spec(text.drop_last()) + 1
    } else {
        line_count_spec(text.drop_last())
    }
}

/// The number of lines of `text`.
pub fn line_count(text: &str) -> (n: usize)
    requires
        text@.len() <= usize::MAX,
    ensures
        n == line_count_spec(text@),
{
    let mut n: usize = 0;
    let mut previous: char = '\n';
    let ghost mut seen: int = 0;
    for c in it: text.chars()
        invariant
            it.seq() == text@,
            text@.len() <= usize::MAX,
            seen == it.index(),
            n == line_count_spec(text@.take(it.index() as int)),
            n <= it.index(),
            it.index() > 0 ==> previous == text@[it.index() - 1],
            it.index() == 0 ==> previous == '\n',
    {
        proof {
            let i = it.index() as int;
            assert(text@.take(i + 1).drop_last() =~= text@.take(i));
        }
        if previous == '\n' {
            n = n + 1;
        }
        previous = c;
        proof {
            seen = seen + 1;
        }
    }
    proof {
        assert(text@.take(seen) =~= text@);
    }
    n
}

/// Whether an entry of the workspace tree is a directory or a file.
#[derive(Clone, Copy, Debug, PartialEq, Eq, Structural)]
pub enum WorkspaceNodeKind {
    Directory,
    File,
}

/// An entry of the workspace tree, with its children if it is a directory.
#[derive(Debug)]
pub struct WorkspaceNode {
    pub name: String,
    pub path: String,
    pub kind: WorkspaceNodeKind,
    pub children: Vec<WorkspaceNode>,
}

/// The lowercase form of `s`, as `str::to_lowercase` computes it.
pub uninterp spec fn lowercase(s: Seq<char>) -> Seq<char>;

/// Calls `str::to_lowercase`, the full Unicode lowercase mapping. Its result is a
/// function of the text alone, named `lowercase`; nothing more of it is stated.
#[verifier::external_body]
fn to_lowercase(s: &str) -> (r: String)
    ensures
        r@ == lowercase(s@),
{
    s.to_lowercase()
}

/// Directories come before files.
pub open spec fn kind_rank(kind: WorkspaceNodeKind) -> int {
    match kind {
        WorkspaceNodeKind::Directory => 0,
        WorkspaceNodeKind::File => 1,
    }
}

/// `a` is listed strictly before `b`: a directory before a file, and otherwise by
/// lowercase name.
pub open spec fn node_before(a: WorkspaceNode, b: WorkspaceNode) -> bool {
    kind_rank(a.kind) < kind_rank(b.kind) || (a.kind == b.kind && text_lt(
        lowercase(a.name@),
        lowercase(b.name@),
    ))
}

/// `a` and `b` are of the same kind and their lowercase names are the same.
pub open spec fn node_tied(a: WorkspaceNode, b: WorkspaceNode) -> bool {
    a.kind == b.kind && lowercase(a.name@) == lowercase(b.name@)
}

/// The listing order is a strict weak order whose ties are `node_tied`.
pub proof fn lemma_node_order(a: WorkspaceNode, b: WorkspaceNode, c: WorkspaceNode)
    ensures
        !node_before(a, a),
        node_before(a, b) && node_before(b, c) ==> node_before(a, c),
        node_before(a, b) ==> !node_before(b, a),
        node_tied(a, b) <==> (!node_before(a, b) && !node_before(b, a)),
        node_tied(a, b) && node_before(b, c) ==> node_before(a, c),
        node_tied(a, b) && node_before(c, b) ==> node_before(c, a),
{
    let (la, lb, lc) = (lowercase(a.name@), lowercase(b.name@), lowercase(c.name@));
    lemma_text_lt_strict(la, lb, lc);
    lemma_text_lt_strict(la, lb, la);
    lemma_text_lt_strict(lb, la, lc);
    lemma_text_lt_strict(lb, lc, la);
    lemma_text_lt_strict(lc, la, lb);
}

/// Compares two entries for the workspace tree: directories first, then by
/// lowercase name.
pub fn node_sort_key(left: &WorkspaceNode, right: &WorkspaceNode) -> (o: Ordering)
    ensures
        (o == Ordering::Less) == node_before(*left, *right),
        (o == Ordering::Greater) == node_before(*right, *left),
        (o == Ordering::Equal) == node_tied(*left, *right),
{
    proof {
        lemma_node_order(*left, *right, *right);
    }
    match (left.kind, right.kind) {
        (WorkspaceNodeKind::Directory, WorkspaceNodeKind::File) => Ordering::Less,
        (WorkspaceNodeKind::File, WorkspaceNodeKind::Directory) => Ordering::Greater,
        _ => {
            let l = to_lowercase(left.name.as_str());
            let r = to_lowercase(right.name.as_str());
            if text_less(l.as_str(), r.as_str()) {
                Ordering::Less
            } else if text_less(r.as_str(), l.as_str()) {
                Ordering::Greater
            } else {
                Ordering::Equal
            }
        },
    }
}

/// Whether `a` is listed strictly before `b`.
fn node_precedes(a: &WorkspaceNode, b: &WorkspaceNode) -> (r: bool)
    ensures
        r == node_before(*a, *b),
{
    match node_sort_key(a, b) {
        Ordering::Less => true,
        _ => false,
    }
}

/// No entry of `s` is listed strictly before an earlier one.
pub open spec fn nodes_sorted(s: Seq<WorkspaceNode>) -> bool {
    forall|i: int, j: int| 0 <= i < j < s.len() ==> !node_before(#[trigger] s[j], #[trigger] s[i])
}

/// The entries of `s` tied with `x`, in the order of `s`.
pub open spec fn tied_with(s: Seq<WorkspaceNode>, x: WorkspaceNode) -> Seq<WorkspaceNode> {
    s.filter(tied_to(x))
}

/// Whether an entry is tied with `x`.
pub open spec fn tied_to(x: WorkspaceNode) -> spec_fn(WorkspaceNode) -> bool {
    |n: WorkspaceNode| node_tied(n, x)
}

/// Filtering keeps nothing when nothing satisfies the predicate.
proof fn lemma_filter_none(s: Seq<WorkspaceNode>, pred: spec_fn(WorkspaceNode) -> bool)
    requires
        forall|i: int| 0 <= i < s.len() ==> !pred(#[trigger] s[i]),
    ensures
        s.filter(pred) == Seq::<WorkspaceNode>::empty(),
    decreases s.len(),
{
    reveal(Seq::filter);
    if s.len() > 0 {
        assert forall|i: int| 0 <= i < s.drop_last().len() implies !pred(#[trigger] s.drop_last()[i]) by {
            assert(s.drop_last()[i] == s[i]);
        }
        lemma_filter_none(s.drop_last(), pred);
        assert(!pred(s[s.len() - 1]));
    } else {
        assert(s =~= Seq::<WorkspaceNode>::empty());
    }
}

/// Filtering a one-entry sequence.
proof fn lemma_filter_one(x: WorkspaceNode, pred: spec_fn(WorkspaceNode) -> bool)
    ensures
        seq![x].filter(pred) == (if pred(x) { seq![x] } else { Seq::<WorkspaceNode>::empty() }),
{
    reveal_with_fuel(Seq::filter, 2);
    assert(seq![x].drop_last() =~= Seq::<WorkspaceNode>::empty());
    assert(seq![x].last() == x);
}

/// Orders entries for the workspace tree, directories first and then by lowercase
/// name; tied entries keep their order.
pub fn sort_workspace_nodes(nodes: Vec<WorkspaceNode>) -> (sorted: Vec<WorkspaceNode>)
    ensures
        nodes_sorted(sorted@),
        forall|x: WorkspaceNode| #[trigger] tied_with(sorted@, x) == tied_with(nodes@, x),
{
    let ghost input = nodes@;
    let mut rest = nodes;
    let mut out: Vec<WorkspaceNode> = Vec::new();
    let ghost mut done: int = 0;
    proof {
        assert(input.skip(0) =~= input);
        assert forall|x: WorkspaceNode| #[trigger] tied_with(out@, x) == tied_with(input.take(0), x) by {
            assert(input.take(0) =~= out@);
        }
    }
    while rest.len() > 0
        invariant
            0 <= done <= input.len(),
            rest@ == input.skip(done),
            nodes_sorted(out@),
            forall|x: WorkspaceNode| #[trigger] tied_with(out@, x) == tied_with(input.take(done), x),
        decreases rest.len(),
    {
        let item = rest.remove(0);
        let mut p: usize = 0;
        while p < out.len() && !node_precedes(&item, &out[p])
            invariant
                p <= out.len(),
                forall|j: int| 0 <= j < p ==> !node_before(item, #[trigger] out@[j]),
            decreases out.len() - p,
        {
            p = p + 1;
        }
        let ghost before = out@;
        let ghost pi = p as int;
        proof {
            assert(item == input[done]);
            let after = before.insert(pi, item);
            assert forall|i: int, j: int| 0 <= i < j < after.len() implies !node_before(
                #[trigger] after[j],
                #[trigger] after[i],
            ) by {
                if j < pi {
                } else if j == pi {
                    lemma_node_order(item, after[i], item);
                } else if i < pi {
                    assert(after[j] == before[j - 1]);
                } else if i == pi {
                    assert(after[j] == before[j - 1]);
                    assert(node_before(item, before[pi]));
                    if j - 1 > pi {
                        assert(!node_before(before[j - 1], before[pi]));
                    }
                    lemma_node_order(before[j - 1], item, before[pi]);
                } else {
                    assert(after[i] == before[i - 1]);
                    assert(after[j] == before[j - 1]);
                }
            }
            assert(after =~= before.take(pi) + seq![item] + before.skip(pi));
            assert(input.take(done + 1) =~= input.take(done) + seq![item]);
            assert forall|x: WorkspaceNode| #[trigger] tied_with(after, x) == tied_with(
                input.take(done + 1),
                x,
            ) by {
                let pred = tied_to(x);
                let head = before.take(pi);
                let tail = before.skip(pi);
                Seq::filter_distributes_over_add(head + seq![item], tail, pred);
                Seq::filter_distributes_over_add(head, seq![item], pred);
                Seq::filter_distributes_over_add(head, tail, pred);
                Seq::filter_distributes_over_add(input.take(done), seq![item], pred);
                lemma_filter_one(item, pred);
                assert(before =~= head + tail);
                assert(tied_with(before, x) == tied_with(input.take(done), x));
                assert(tied_with(before, x) == head.filter(pred) + tail.filter(pred));
                assert(tied_with(after, x) == head.filter(pred) + seq![item].filter(pred) + tail.filter(pred));
                assert(tied_with(input.take(done + 1), x) == tied_with(input.take(done), x) + seq![item].filter(pred));
                if pred(item) {
                    assert forall|k: int| 0 <= k < tail.len() implies !pred(#[trigger] tail[k]) by {
                        let n = tail[k];
                        assert(n == before[pi + k]);
                        assert(node_before(item, before[pi]));
                        if k > 0 {
                            assert(!node_before(before[pi + k], before[pi]));
                        }
                        lemma_node_order(item, before[pi], n);
                        lemma_node_order(n, x, item);
                        lemma_node_order(item, x, n);
                        lemma_node_order(n, item, before[pi]);
                    }
                    lemma_filter_none(tail, pred);
                    assert(head.filter(pred) + seq![item] + Seq::<WorkspaceNode>::empty()
                        =~= head.filter(pred) + seq![item]);
                    assert(head.filter(pred) + Seq::<WorkspaceNode>::empty() =~= head.filter(pred));
                } else {
                    assert(head.filter(pred) + Seq::<WorkspaceNode>::empty() + tail.filter(pred)
                        =~= head.filter(pred) + tail.filter(pred));
                    assert(tied_with(input.take(done), x) + Seq::<WorkspaceNode>::empty()
                        =~= tied_with(input.take(done), x));
                }
            }
            assert(input.skip(done + 1) =~= rest@);
        }
        out.insert(p, item);
        proof {
            done = done + 1;
        }
    }
    proof {
        assert(input.take(done) =~= input);
    }
    out
}

/// The components of a path, each as the bytes of its name.
pub open spec fn component_bytes(components: Seq<Vec<u8>>) -> Seq<Seq<u8>> {
    components.map_values(|c: Vec<u8>| c@)
}

/// `path` lies inside `root`: the components of `root` begin those of `path`.
pub open spec fn path_within(path: Seq<Seq<u8>>, root: Seq<Seq<u8>>) -> bool {
    root.len() <= path.len() && path.take(root.len() as int) == root
}

/// Refuses a resolved path that lies outside the resolved workspace root; both are
/// given as their components.
pub fn ensure_in_workspace(path: &[Vec<u8>], workspace_root: &[Vec<u8>]) -> (r: Result<(), String>)
    ensures
        r is Ok <==> path_within(component_bytes(path@), component_bytes(workspace_root@)),
        r matches Err(e) ==> e@ == "requested path is outside the workspace"@,
{
    let ghost p = component_bytes(path@);
    let ghost q = component_bytes(workspace_root@);
    let mut inside = workspace_root.len() <= path.len();
    let mut i: usize = 0;
    while inside && i < workspace_root.len()
        invariant
            i <= workspace_root.len(),
            inside ==> workspace_root.len() <= path.len(),
            inside ==> forall|k: int| 0 <= k < i ==> p[k] == q[k],
            !inside ==> !path_within(p, q),
            p == component_bytes(path@),
            q == component_bytes(workspace_root@),
        decreases workspace_root.len() - i,
    {
        if !crate::text::bytes_equal(path[i].as_slice(), workspace_root[i].as_slice()) {
            proof {
                if path_within(p, q) {
                    assert(p.take(q.len() as int)[i as int] == p[i as int]);
                }
            }
            inside = false;
        }
        i = i + 1;
    }
    if inside {
        proof {
            assert(p.take(q.len() as int) =~= q);
        }
        Ok(())
    } else {
        Err(String::from_str("requested path is outside the workspace"))
    }
}

} // verus!
