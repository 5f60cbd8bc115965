//! The conversion driver: identifier assignment over the whole scene
//! tree, and the top-level emission of the generated program.
use vstd::prelude::*;
use vstd::string::StringExecFns;

use crate::asy::{dec_digits, format_dec, push_digits, Dec};
use crate::group::{
    children_wf,
    children_ids_assigned,
    group_paint_err,
    group_text,
    group_warnings,
    ids_assigned,
    lemma_children_wf_elem,
    node_id,
    node_wf,
    Group,
    Node,
};
use crate::{lemma_seq_assoc, AsyError, AsyOptions, Warning};

verus! {

/// A parsed scene: the root node and the declared view-box extents.
#[derive(Debug)]
pub struct Tree {
    pub root: Node,
    pub view_box_width: Dec,
    pub view_box_height: Dec,
}

/// The number of nodes in the whole tree, clip and mask subtrees
/// included: the number of identifiers an assignment pass consumes.
pub open spec fn total_size(n: Node) -> nat
    decreases n,
{
    match n {
        Node::Group(g) => (match g.clip_path {
            Some(b) => total_size(*b),
            None => 0,
        }) + (match g.mask {
            Some(b) => total_size(*b),
            None => 0,
        }) + 1 + children_total(g.children, g.children@.len() as int),
        _ => 1,
    }
}

pub open spec fn children_total(cs: Vec<Node>, i: int) -> nat
    decreases cs, i,
{
    if i <= 0 || i > cs@.len() {
        0
    } else {
        children_total(cs, i - 1) + total_size(cs@[i - 1])
    }
}

/// The identifiers of the tree, in assignment order: a group's clip-path
/// subtree first, then its mask subtree, then the group itself, then its
/// children in document order.
pub open spec fn ids_seq(n: Node) -> Seq<Option<u64>>
    decreases n,
{
    match n {
        Node::Group(g) => (match g.clip_path {
            Some(b) => ids_seq(*b),
            None => Seq::empty(),
        }) + (match g.mask {
            Some(b) => ids_seq(*b),
            None => Seq::empty(),
        }) + seq![g.id] + children_ids(g.children, g.children@.len() as int),
        Node::Path(p) => seq![p.id],
        Node::Image { id } => seq![id],
        Node::Text { id } => seq![id],
    }
}

pub open spec fn children_ids(cs: Vec<Node>, i: int) -> Seq<Option<u64>>
    decreases cs, i,
{
    if i <= 0 || i > cs@.len() {
        Seq::empty()
    } else {
        children_ids(cs, i - 1) + ids_seq(cs@[i - 1])
    }
}

/// Two nodes are equal in everything except their identifiers.
pub open spec fn eq_mod_ids(a: Node, b: Node) -> bool
    decreases a,
{
    match (a, b) {
        (Node::Group(x), Node::Group(y)) => {
            &&& x.transform == y.transform
            &&& x.opacity == y.opacity
            &&& x.blend_mode_default == y.blend_mode_default
            &&& x.isolate == y.isolate
            &&& x.has_filters == y.has_filters
            &&& x.has_filter_fill == y.has_filter_fill
            &&& x.has_filter_stroke == y.has_filter_stroke
            &&& x.has_enable_background == y.has_enable_background
            &&& match (x.clip_path, y.clip_path) {
                (Some(p), Some(q)) => eq_mod_ids(*p, *q),
                (None, None) => true,
                _ => false,
            }
            &&& match (x.mask, y.mask) {
                (Some(p), Some(q)) => eq_mod_ids(*p, *q),
                (None, None) => true,
                _ => false,
            }
            &&& x.children@.len() == y.children@.len()
            &&& children_eq_mod_ids(x.children, y.children, x.children@.len() as int)
        },
        (Node::Path(p), Node::Path(q)) => {
            &&& p.transform == q.transform
            &&& p.visible == q.visible
            &&& p.fill == q.fill
            &&& p.stroke == q.stroke
            &&& p.paint_order == q.paint_order
            &&& p.data == q.data
        },
        (Node::Image { .. }, Node::Image { .. }) => true,
        (Node::Text { .. }, Node::Text { .. }) => true,
        _ => false,
    }
}

pub open spec fn children_eq_mod_ids(xs: Vec<Node>, ys: Vec<Node>, i: int) -> bool
    decreases xs, i,
{
    if i <= 0 || i > xs@.len() || i > ys@.len() {
        true
    } else {
        children_eq_mod_ids(xs, ys, i - 1) && eq_mod_ids(xs@[i - 1], ys@[i - 1])
    }
}

/// The expected identifier run: `count` consecutive identifiers starting
/// at `base`.
pub open spec fn id_range(base: u64, count: nat) -> Seq<Option<u64>> {
    Seq::new(count, |k: int| Some((base + k) as u64))
}

/// Two adjacent identifier runs concatenate into one.
proof fn lemma_range_concat(a: Seq<Option<u64>>, b: Seq<Option<u64>>, base: u64, la: nat, lb: nat)
    requires
        a == id_range(base, la),
        b == id_range((base + la) as u64, lb),
        base + la + lb <= u64::MAX,
    ensures
        a + b == id_range(base, (la + lb) as nat),
    decreases la,
{
    assert(a + b =~= id_range(base, (la + lb) as nat));
}

/// Child-wise equality up to `i` only reads the first `i` elements.
proof fn lemma_children_eq_prefix(xs: Vec<Node>, ys: Vec<Node>, ys2: Vec<Node>, i: int)
    requires
        0 <= i <= xs@.len(),
        i <= ys@.len(),
        i <= ys2@.len(),
        forall|j: int| 0 <= j < i ==> ys2@[j] == ys@[j],
        children_eq_mod_ids(xs, ys, i),
    ensures
        children_eq_mod_ids(xs, ys2, i),
    decreases i,
{
    if i > 0 {
        lemma_children_eq_prefix(xs, ys, ys2, i - 1);
    }
}

/// The identifier run of the first `i` children only reads the first
/// `i` elements.
proof fn lemma_children_ids_prefix(ys: Vec<Node>, ys2: Vec<Node>, i: int)
    requires
        0 <= i <= ys@.len(),
        i <= ys2@.len(),
        forall|j: int| 0 <= j < i ==> ys2@[j] == ys@[j],
    ensures
        children_ids(ys2, i) == children_ids(ys, i),
    decreases i,
{
    if i > 0 {
        lemma_children_ids_prefix(ys, ys2, i - 1);
    }
}

/// Assigned identifiers over the first `i` children only read the first
/// `i` elements.
proof fn lemma_children_assigned_prefix(ys: Vec<Node>, ys2: Vec<Node>, i: int)
    requires
        0 <= i <= ys@.len(),
        i <= ys2@.len(),
        forall|j: int| 0 <= j < i ==> ys2@[j] == ys@[j],
        children_ids_assigned(ys, i),
    ensures
        children_ids_assigned(ys2, i),
    decreases i,
{
    if i > 0 {
        lemma_children_assigned_prefix(ys, ys2, i - 1);
    }
}

/// Well-formedness of the first `i` children only reads the first `i`
/// elements.
proof fn lemma_children_wf_prefix(ys: Vec<Node>, ys2: Vec<Node>, i: int)
    requires
        0 <= i <= ys@.len(),
        i <= ys2@.len(),
        forall|j: int| 0 <= j < i ==> ys2@[j] == ys@[j],
        children_wf(ys, i),
    ensures
        children_wf(ys2, i),
    decreases i,
{
    if i > 0 {
        lemma_children_wf_prefix(ys, ys2, i - 1);
    }
}

/// Each child's subtree consumes no more identifiers than all children.
proof fn lemma_child_total(cs: Vec<Node>, i: int, n: int)
    requires
        0 <= i < n <= cs@.len(),
    ensures
        children_total(cs, n) >= total_size(cs@[i]),
    decreases n,
{
    if i < n - 1 {
        lemma_child_total(cs, i, n - 1);
    }
}

/// A prefix of the children consumes at most as many identifiers as all
/// of them.
proof fn lemma_children_total_mono(cs: Vec<Node>, i: int, j: int)
    requires
        0 <= i <= j <= cs@.len(),
    ensures
        children_total(cs, i) <= children_total(cs, j),
    decreases j,
{
    if i < j {
        lemma_children_total_mono(cs, i, j - 1);
    }
}

/// Assigns consecutive identifiers to every node of the tree, in
/// pre-order, numbering a group's clip-path and mask subtrees before the
/// group itself and before its children.  Returns the annotated tree and
/// the next free identifier, so that further numbering can continue
/// without collision.
pub fn generate_ids(node: Node, id: u64) -> (r: (Node, u64))
    requires
        id + total_size(node) <= u64::MAX,
    ensures
        eq_mod_ids(node, r.0),
        ids_seq(r.0) == id_range(id, total_size(node)),
        r.1 == id + total_size(node),
        ids_assigned(r.0),
        node_wf(node) ==> node_wf(r.0),
    decreases total_size(node),
{
    let ghost node0 = node;
    match node {
        Node::Group(g) => {
            let Group {
                id: _,
                transform,
                opacity,
                blend_mode_default,
                isolate,
                clip_path,
                mask,
                has_filters,
                has_filter_fill,
                has_filter_stroke,
                has_enable_background,
                children,
            } = g;
            let ghost oldc = children;
            let mut next = id;
            let clip2 = match clip_path {
                Some(b) => {
                    let (n2, nx) = generate_ids(*b, next);
                    next = nx;
                    Some(Box::new(n2))
                },
                None => None,
            };
            let ghost clip_ids = match &clip2 {
                Some(b) => ids_seq(**b),
                None => Seq::empty(),
            };
            let ghost clip_total = match node0 {
                Node::Group(gg) => match gg.clip_path {
                    Some(b) => total_size(*b),
                    None => 0,
                },
                _ => 0,
            };
            proof {
                if clip2 is None {
                    assert(clip_ids =~= id_range(id, 0));
                }
            }
            let mask2 = match mask {
                Some(b) => {
                    let (n2, nx) = generate_ids(*b, next);
                    next = nx;
                    Some(Box::new(n2))
                },
                None => None,
            };
            let ghost mask_ids = match &mask2 {
                Some(b) => ids_seq(**b),
                None => Seq::empty(),
            };
            let ghost mask_total = match node0 {
                Node::Group(gg) => match gg.mask {
                    Some(b) => total_size(*b),
                    None => 0,
                },
                _ => 0,
            };
            proof {
                if mask2 is None {
                    assert(mask_ids =~= id_range(next, 0));
                }
                lemma_range_concat(clip_ids, mask_ids, id, clip_total, mask_total);
            }
            let gid = next;
            next = next + 1;
            proof {
                assert(seq![Some(gid)] =~= id_range(gid, 1));
                lemma_range_concat(
                    clip_ids + mask_ids,
                    seq![Some(gid)],
                    id,
                    (clip_total + mask_total) as nat,
                    1,
                );
            }
            let ghost base = next;
            let mut rest = children;
            let mut newkids: Vec<Node> = Vec::new();
            let mut k: usize = 0;
            let n = rest.len();
            proof {
                assert(children_ids(newkids, 0) =~= id_range(base, 0));
            }
            while k < n
                invariant
                    node0 == node,
                    k <= n,
                    n == oldc@.len(),
                    rest@ == oldc@.skip(k as int),
                    newkids@.len() == k,
                    children_eq_mod_ids(oldc, newkids, k as int),
                    children_ids(newkids, k as int) == id_range(
                        base,
                        children_total(oldc, k as int),
                    ),
                    children_ids_assigned(newkids, k as int),
                    node_wf(node0) ==> children_wf(oldc, n as int),
                    node_wf(node0) ==> children_wf(newkids, k as int),
                    next == base + children_total(oldc, k as int),
                    base == id + clip_total + mask_total + 1,
                    id + total_size(node0) <= u64::MAX,
                    total_size(node0) == clip_total + mask_total + 1 + children_total(
                        oldc,
                        oldc@.len() as int,
                    ),
                decreases n - k,
            {
                let c = rest.remove(0);
                proof {
                    assert(c == oldc@[k as int]);
                    assert(rest@ =~= oldc@.skip(k + 1 as int));
                    lemma_children_total_mono(oldc, k + 1 as int, oldc@.len() as int);
                    lemma_child_total(oldc, k as int, oldc@.len() as int);
                }
                let (c2, nx) = generate_ids(c, next);
                next = nx;
                let ghost kids0 = newkids;
                newkids.push(c2);
                proof {
                    lemma_children_eq_prefix(oldc, kids0, newkids, k as int);
                    assert(children_eq_mod_ids(oldc, newkids, k + 1 as int));
                    lemma_children_ids_prefix(kids0, newkids, k as int);
                    lemma_children_assigned_prefix(kids0, newkids, k as int);
                    if node_wf(node0) {
                        lemma_children_wf_elem(oldc, k as int, n as int);
                        lemma_children_wf_prefix(kids0, newkids, k as int);
                    }
                    lemma_range_concat(
                        children_ids(newkids, k as int),
                        ids_seq(c2),
                        base,
                        children_total(oldc, k as int),
                        total_size(c),
                    );
                    assert(children_ids(newkids, k + 1 as int) == children_ids(
                        newkids,
                        k as int,
                    ) + ids_seq(newkids@[k as int]));
                }
                k = k + 1;
            }
            let g2 = Group {
                id: Some(gid),
                transform,
                opacity,
                blend_mode_default,
                isolate,
                clip_path: clip2,
                mask: mask2,
                has_filters,
                has_filter_fill,
                has_filter_stroke,
                has_enable_background,
                children: newkids,
            };
            proof {
                lemma_range_concat(
                    clip_ids + mask_ids + seq![Some(gid)],
                    children_ids(g2.children, g2.children@.len() as int),
                    id,
                    (clip_total + mask_total + 1) as nat,
                    children_total(oldc, oldc@.len() as int),
                );
                assert(eq_mod_ids(node, Node::Group(g2)));
            }
            (Node::Group(g2), next)
        },
        Node::Path(p) => {
            let p2 = crate::path::Path {
                id: Some(id),
                transform: p.transform,
                visible: p.visible,
                fill: p.fill,
                stroke: p.stroke,
                paint_order: p.paint_order,
                data: p.data,
            };
            proof {
                assert(ids_seq(Node::Path(p2)) =~= id_range(id, 1));
            }
            (Node::Path(p2), id + 1)
        },
        Node::Image { .. } => {
            proof {
                assert(ids_seq(Node::Image { id: Some(id) }) =~= id_range(id, 1));
            }
            (Node::Image { id: Some(id) }, id + 1)
        },
        Node::Text { .. } => {
            proof {
                assert(ids_seq(Node::Text { id: Some(id) }) =~= id_range(id, 1));
            }
            (Node::Text { id: Some(id) }, id + 1)
        },
    }
}

/// The generated program: the root group's procedures, one statement
/// invoking the root procedure, and the invisible zero-width view-box
/// rectangle that records the document's declared extents.
pub open spec fn tree_text(t: Tree, opt: AsyOptions) -> Seq<char> {
    match t.root {
        Node::Group(g) => group_text(g, true, opt) + "add(pic"@ + dec_digits(
            node_id(t.root) as nat,
        ) + "());\n"@ + "draw(scale("@ + crate::asy::spec_format(t.view_box_width, opt.precision)
            + ", -"@ + crate::asy::spec_format(t.view_box_height, opt.precision)
            + ") * ((0,0) -- (0, 1) -- (1, 1) -- (1, 0) -- cycle), invisible + linewidth(0));\n"@,
        _ => Seq::empty(),
    }
}

/// Converts a scene tree (with identifiers already assigned) into the
/// full Asymptote program, collecting the warnings for every unsupported
/// attribute met on the way.  The conversion fails on a root that is not
/// a group and on any gradient or pattern paint.
pub fn transpile_tree(tree: &Tree, opt: &AsyOptions) -> (r: Result<(String, Vec<Warning>), AsyError>)
    requires
        node_wf(tree.root),
        ids_assigned(tree.root),
        tree.view_box_width.wf(),
        tree.view_box_height.wf(),
    ensures
        match r {
            Ok(p) => match tree.root {
                Node::Group(g) => group_paint_err(g) is None && p.0@ == tree_text(*tree, *opt)
                    && p.1@ == group_warnings(g),
                _ => false,
            },
            Err(e) => match tree.root {
                Node::Group(g) => group_paint_err(g) == Some(e),
                _ => e == AsyError::RootNotGroup,
            },
        },
{
    let g = match &tree.root {
        Node::Group(g) => g,
        _ => { return Err(AsyError::RootNotGroup) },
    };
    let mut warnings: Vec<Warning> = Vec::new();
    let mut s = match g.transpile(true, opt, &mut warnings) {
        Ok(s) => s,
        Err(e) => { return Err(e) },
    };
    proof {
        assert(Seq::<Warning>::empty() + group_warnings(*g) =~= group_warnings(*g));
    }
    let ghost t0 = s@;
    s.append("add(pic");
    push_digits(&mut s, g.id.unwrap() as u128);
    s.append("());\n");
    s.append("draw(scale(");
    let t = format_dec(&tree.view_box_width, opt.precision);
    s.append(t.as_str());
    s.append(", -");
    let t = format_dec(&tree.view_box_height, opt.precision);
    s.append(t.as_str());
    s.append(") * ((0,0) -- (0, 1) -- (1, 1) -- (1, 0) -- cycle), invisible + linewidth(0));\n");
    proof {
        let p1 = "add(pic"@;
        let p2 = dec_digits(node_id(tree.root) as nat);
        let p3 = "());\n"@;
        let p4 = "draw(scale("@;
        let p5 = crate::asy::spec_format(tree.view_box_width, opt.precision);
        let p6 = ", -"@;
        let p7 = crate::asy::spec_format(tree.view_box_height, opt.precision);
        let p8 = ") * ((0,0) -- (0, 1) -- (1, 1) -- (1, 0) -- cycle), invisible + linewidth(0));\n"@;
        lemma_seq_assoc(t0, p1, p2);
        lemma_seq_assoc(t0, p1 + p2, p3);
        lemma_seq_assoc(t0, p1 + p2 + p3, p4);
        lemma_seq_assoc(t0, p1 + p2 + p3 + p4, p5);
        lemma_seq_assoc(t0, p1 + p2 + p3 + p4 + p5, p6);
        lemma_seq_assoc(t0, p1 + p2 + p3 + p4 + p5 + p6, p7);
        lemma_seq_assoc(t0, p1 + p2 + p3 + p4 + p5 + p6 + p7, p8);
        assert(s@ == tree_text(*tree, *opt));
    }
    Ok((s, warnings))
}

/// Law: the identifier assigner gives pairwise-distinct identifiers to
/// all visited nodes, clip-path and mask subtrees included.  Together
/// with the contract of `generate_ids` — whose results are an exact
/// function of the input tree and the starting identifier — this also
/// makes the assignment deterministic across repeated runs.
pub proof fn lemma_ids_distinct(n: Node, base: u64)
    requires
        ids_seq(n) == id_range(base, total_size(n)),
        base + total_size(n) <= u64::MAX,
    ensures
        forall|i: int, j: int|
            0 <= i < j < ids_seq(n).len() ==> ids_seq(n)[i] != ids_seq(n)[j],
{
    assert forall|i: int, j: int|
        0 <= i < j < ids_seq(n).len() implies ids_seq(n)[i] != ids_seq(n)[j] by {
        assert(ids_seq(n)[i] == Some((base + i) as u64));
        assert(ids_seq(n)[j] == Some((base + j) as u64));
    }
}

} // verus!
