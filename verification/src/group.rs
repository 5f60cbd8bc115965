//! The scene tree and the rendering of groups.
//!
//! Each group becomes one Asymptote procedure returning a picture; nested
//! group procedures are emitted before their parent's, and unsupported
//! group attributes produce warnings while generation continues.
use vstd::prelude::*;
use vstd::string::StringExecFns;

use crate::asy::{
    dec_digits,
    dec_fuzzy_eq,
    fuzzy_eq_const,
    negate,
    push_digits,
    spec_format,
    spec_negate,
    format_dec,
    Asy,
    Dec,
};
use crate::path::Path;
use crate::{lemma_seq_assoc, AsyError, AsyOptions, Warning};

verus! {

/// A 2D affine transform with six coefficients, written in the order the
/// Asymptote transform constructor expects.
#[derive(Clone, Copy, PartialEq, Eq, Structural, Debug)]
pub struct Transform {
    pub a: Dec,
    pub b: Dec,
    pub c: Dec,
    pub d: Dec,
    pub e: Dec,
    pub f: Dec,
}

impl Transform {
    /// All coefficients are well-formed decimals.
    pub open spec fn wf(&self) -> bool {
        self.a.wf() && self.b.wf() && self.c.wf() && self.d.wf() && self.e.wf() && self.f.wf()
    }

    /// The identity transform, the default value.
    pub fn identity() -> (r: Transform)
        ensures
            r.wf(),
            transform_is_default(r),
    {
        let zero = Dec { neg: false, coeff: 0, scale: 0 };
        let one = Dec { neg: false, coeff: 1, scale: 0 };
        Transform { a: one, b: zero, c: zero, d: one, e: zero, f: zero }
    }

    /// Whether the transform equals the identity (up to the tolerance).
    pub fn is_default(&self) -> (b: bool)
        requires
            self.wf(),
        ensures
            b == transform_is_default(*self),
    {
        fuzzy_eq_const(&self.a, 1) && fuzzy_eq_const(&self.b, 0) && fuzzy_eq_const(&self.c, 0)
            && fuzzy_eq_const(&self.d, 1) && fuzzy_eq_const(&self.e, 0) && fuzzy_eq_const(
            &self.f,
            0,
        )
    }

    /// The transform composed with a vertical flip (scale by 1 on x and
    /// by -1 on y, applied to the coordinates first): the third and
    /// fourth coefficients change sign.
    pub fn flip_y(&self) -> (r: Transform)
        ensures
            r == spec_flip_y(*self),
            self.wf() ==> r.wf(),
    {
        Transform {
            a: self.a,
            b: self.b,
            c: negate(&self.c),
            d: negate(&self.d),
            e: self.e,
            f: self.f,
        }
    }
}

/// Whether a transform equals the identity (up to the tolerance).
pub open spec fn transform_is_default(t: Transform) -> bool {
    dec_fuzzy_eq(t.a, 1) && dec_fuzzy_eq(t.b, 0) && dec_fuzzy_eq(t.c, 0) && dec_fuzzy_eq(t.d, 1)
        && dec_fuzzy_eq(t.e, 0) && dec_fuzzy_eq(t.f, 0)
}

/// The vertical flip applied to the coordinates first.
pub open spec fn spec_flip_y(t: Transform) -> Transform {
    Transform { a: t.a, b: t.b, c: spec_negate(t.c), d: spec_negate(t.d), e: t.e, f: t.f }
}

/// The text of a transform: the two translation coefficients first, as
/// the Asymptote constructor takes them.
pub open spec fn transform_text(t: Transform, opt: AsyOptions) -> Seq<char> {
    "("@ + spec_format(t.e, opt.precision) + ", "@ + spec_format(t.f, opt.precision) + ", "@
        + spec_format(t.a, opt.precision) + ", "@ + spec_format(t.b, opt.precision) + ", "@
        + spec_format(t.c, opt.precision) + ", "@ + spec_format(t.d, opt.precision) + ")"@
}

impl Asy for Transform {
    open spec fn asy_wf(&self) -> bool {
        self.wf()
    }

    open spec fn asy_spec(&self, opt: AsyOptions) -> Seq<char> {
        transform_text(*self, opt)
    }

    fn transpile(&self, opt: &AsyOptions) -> (r: String) {
        let mut s = String::new();
        s.append("(");
        let t = format_dec(&self.e, opt.precision);
        s.append(t.as_str());
        s.append(", ");
        let t = format_dec(&self.f, opt.precision);
        s.append(t.as_str());
        s.append(", ");
        let t = format_dec(&self.a, opt.precision);
        s.append(t.as_str());
        s.append(", ");
        let t = format_dec(&self.b, opt.precision);
        s.append(t.as_str());
        s.append(", ");
        let t = format_dec(&self.c, opt.precision);
        s.append(t.as_str());
        s.append(", ");
        let t = format_dec(&self.d, opt.precision);
        s.append(t.as_str());
        s.append(")");
        proof {
            assert(s@ =~= transform_text(*self, *opt));
        }
        s
    }
}

/// A node of the scene tree.
#[derive(Debug)]
pub enum Node {
    Group(Group),
    Path(Path),
    /// A raster image; structurally present but never rendered.
    Image { id: Option<u64> },
    /// A text element; structurally present but never rendered.
    Text { id: Option<u64> },
}

/// A group container with its attributes.  All attributes other than the
/// transform and the children are visual effects this generator does not
/// implement: their presence is warned about and the effect is dropped.
#[derive(Debug)]
pub struct Group {
    pub id: Option<u64>,
    pub transform: Transform,
    pub opacity: Dec,
    /// Whether the blend mode is the normal default.
    pub blend_mode_default: bool,
    pub isolate: bool,
    pub clip_path: Option<Box<Node>>,
    pub mask: Option<Box<Node>>,
    pub has_filters: bool,
    pub has_filter_fill: bool,
    pub has_filter_stroke: bool,
    pub has_enable_background: bool,
    pub children: Vec<Node>,
}

impl Node {
    /// The number of nodes in the rendered tree (clip and mask subtrees
    /// are not rendered and do not count).
    pub open spec fn size(&self) -> nat
        decreases *self,
    {
        match *self {
            Node::Group(g) => 1 + children_size(g.children, g.children.len() as int),
            _ => 1,
        }
    }
}

/// The number of nodes in the first `i` children.
pub open spec fn children_size(cs: Vec<Node>, i: int) -> nat
    decreases cs, i,
{
    if i <= 0 || i > cs@.len() {
        0
    } else {
        children_size(cs, i - 1) + cs@[i - 1].size()
    }
}

/// Well-formedness of a node: every numeric attribute everywhere in the
/// tree (clip and mask subtrees included) is a well-formed decimal.
pub open spec fn node_wf(n: Node) -> bool
    decreases n,
{
    match n {
        Node::Group(g) => g.transform.wf() && g.opacity.wf() && (match g.clip_path {
            Some(b) => node_wf(*b),
            None => true,
        }) && (match g.mask {
            Some(b) => node_wf(*b),
            None => true,
        }) && children_wf(g.children, g.children@.len() as int),
        Node::Path(p) => p.wf(),
        _ => true,
    }
}

pub open spec fn children_wf(cs: Vec<Node>, i: int) -> bool
    decreases cs, i,
{
    if i <= 0 || i > cs@.len() {
        true
    } else {
        children_wf(cs, i - 1) && node_wf(cs@[i - 1])
    }
}

/// Every group and path of the rendered tree carries an identifier.
pub open spec fn ids_assigned(n: Node) -> bool
    decreases n,
{
    match n {
        Node::Group(g) => g.id is Some && children_ids_assigned(
            g.children,
            g.children@.len() as int,
        ),
        Node::Path(p) => p.id is Some,
        _ => true,
    }
}

pub open spec fn children_ids_assigned(cs: Vec<Node>, i: int) -> bool
    decreases cs, i,
{
    if i <= 0 || i > cs@.len() {
        true
    } else {
        children_ids_assigned(cs, i - 1) && ids_assigned(cs@[i - 1])
    }
}

/// The warnings a group's own attributes produce, in the order they are
/// checked: every visual effect the generator cannot express is reported
/// and then dropped.
pub open spec fn own_warnings(g: Group) -> Seq<Warning> {
    (if !dec_fuzzy_eq(g.opacity, 1) {
        seq![Warning::GroupOpacity]
    } else {
        Seq::empty()
    }) + (if !g.blend_mode_default {
        seq![Warning::BlendMode]
    } else {
        Seq::empty()
    }) + (if g.isolate {
        seq![Warning::Isolation]
    } else {
        Seq::empty()
    }) + (if g.clip_path is Some {
        seq![Warning::ClipPath]
    } else {
        Seq::empty()
    }) + (if g.mask is Some {
        seq![Warning::Mask]
    } else {
        Seq::empty()
    }) + (if g.has_filters || g.has_filter_fill || g.has_filter_stroke {
        seq![Warning::Filters]
    } else {
        Seq::empty()
    }) + (if g.has_enable_background {
        seq![Warning::EnableBackground]
    } else {
        Seq::empty()
    })
}

/// The warnings of a whole group, in emission order: the group's own
/// attribute warnings, then the warnings of the nested group procedures
/// (emitted before the group's own procedure), then the warnings of the
/// procedure body (paths, images and text elements in document order).
pub open spec fn group_warnings(g: Group) -> Seq<Warning>
    decreases g,
{
    own_warnings(g) + procs_warnings(g.children, g.children@.len() as int) + body_warnings(
        g.children,
        g.children@.len() as int,
    )
}

pub open spec fn procs_warnings(cs: Vec<Node>, i: int) -> Seq<Warning>
    decreases cs, i,
{
    if i <= 0 || i > cs@.len() {
        Seq::empty()
    } else {
        procs_warnings(cs, i - 1) + (match cs@[i - 1] {
            Node::Group(g2) => group_warnings(g2),
            _ => Seq::empty(),
        })
    }
}

pub open spec fn body_warnings(cs: Vec<Node>, i: int) -> Seq<Warning>
    decreases cs, i,
{
    if i <= 0 || i > cs@.len() {
        Seq::empty()
    } else {
        body_warnings(cs, i - 1) + (match cs@[i - 1] {
            Node::Path(p) => crate::path::path_warnings(p),
            Node::Image { .. } => seq![Warning::Image],
            Node::Text { .. } => seq![Warning::Text],
            Node::Group(_) => Seq::empty(),
        })
    }
}

/// The first fatal paint error a group's emission meets: first the nested
/// group procedures in document order, then the body's paths in document
/// order.
pub open spec fn group_paint_err(g: Group) -> Option<AsyError>
    decreases g,
{
    match procs_err(g.children, g.children@.len() as int) {
        Some(e) => Some(e),
        None => body_err(g.children, g.children@.len() as int),
    }
}

pub open spec fn procs_err(cs: Vec<Node>, i: int) -> Option<AsyError>
    decreases cs, i,
{
    if i <= 0 || i > cs@.len() {
        None
    } else {
        match procs_err(cs, i - 1) {
            Some(e) => Some(e),
            None => match cs@[i - 1] {
                Node::Group(g2) => group_paint_err(g2),
                _ => None,
            },
        }
    }
}

pub open spec fn body_err(cs: Vec<Node>, i: int) -> Option<AsyError>
    decreases cs, i,
{
    if i <= 0 || i > cs@.len() {
        None
    } else {
        match body_err(cs, i - 1) {
            Some(e) => Some(e),
            None => match cs@[i - 1] {
                Node::Path(p) => crate::path::path_paint_err(p),
                _ => None,
            },
        }
    }
}

/// The id of a node, for spec purposes (0 when unset).
pub open spec fn node_id(n: Node) -> u64 {
    match n {
        Node::Group(g) => match g.id {
            Some(i) => i,
            None => 0,
        },
        Node::Path(p) => match p.id {
            Some(i) => i,
            None => 0,
        },
        Node::Image { id } => match id {
            Some(i) => i,
            None => 0,
        },
        Node::Text { id } => match id {
            Some(i) => i,
            None => 0,
        },
    }
}

/// The footer of a group's procedure: the accumulated picture is
/// returned directly under an identity transform, and through a named
/// transform otherwise.  Only the root group's transform is composed
/// with the vertical flip that converts between the input's
/// downward-increasing and Asymptote's upward-increasing vertical axis.
pub open spec fn group_footer_text(g: Group, is_root: bool, opt: AsyOptions) -> Seq<char> {
    let tf = if is_root {
        spec_flip_y(g.transform)
    } else {
        g.transform
    };
    if transform_is_default(tf) {
        "\treturn pic;\n"@ + "}\n"@
    } else {
        "\ttransform t = "@ + transform_text(tf, opt) + ";\n"@ + "\treturn t * pic;\n"@
            + "}\n"@
    }
}

/// The text of a whole group: the procedures of its nested groups (each
/// defined before it is referenced), then its own procedure, whose body
/// composes the children in document order.
pub open spec fn group_text(g: Group, is_root: bool, opt: AsyOptions) -> Seq<char>
    decreases g,
{
    procs_text(g.children, g.children@.len() as int, opt) + "picture pic"@ + dec_digits(
        node_id(Node::Group(g)) as nat,
    ) + "() {\n"@ + "\tpicture pic;\n"@ + body_text(g.children, g.children@.len() as int, opt)
        + group_footer_text(g, is_root, opt)
}

pub open spec fn procs_text(cs: Vec<Node>, i: int, opt: AsyOptions) -> Seq<char>
    decreases cs, i,
{
    if i <= 0 || i > cs@.len() {
        Seq::empty()
    } else {
        procs_text(cs, i - 1, opt) + (match cs@[i - 1] {
            Node::Group(g2) => group_text(g2, false, opt),
            _ => Seq::empty(),
        })
    }
}

pub open spec fn body_text(cs: Vec<Node>, i: int, opt: AsyOptions) -> Seq<char>
    decreases cs, i,
{
    if i <= 0 || i > cs@.len() {
        Seq::empty()
    } else {
        body_text(cs, i - 1, opt) + (match cs@[i - 1] {
            Node::Group(g2) => "\tadd(pic, pic"@ + dec_digits(node_id(Node::Group(g2)) as nat)
                + "());\n"@,
            Node::Path(p) => crate::path::path_text(
                p,
                match p.id {
                    Some(i) => i,
                    None => 0,
                },
                opt,
            ),
            _ => Seq::empty(),
        })
    }
}

/// Each child's subtree is counted inside the whole children count.
proof fn lemma_child_size(cs: Vec<Node>, i: int, n: int)
    requires
        0 <= i < n <= cs@.len(),
    ensures
        children_size(cs, n) >= cs@[i].size(),
    decreases n,
{
    if i < n - 1 {
        lemma_child_size(cs, i, n - 1);
    }
}

/// Well-formedness and assigned identifiers carry to each child.
proof fn lemma_children_props(cs: Vec<Node>, i: int, n: int)
    requires
        0 <= i < n <= cs@.len(),
        children_wf(cs, n),
        children_ids_assigned(cs, n),
    ensures
        node_wf(cs@[i]),
        ids_assigned(cs@[i]),
    decreases n,
{
    if i < n - 1 {
        lemma_children_props(cs, i, n - 1);
    }
}

/// Well-formedness carries to each child.
pub proof fn lemma_children_wf_elem(cs: Vec<Node>, i: int, n: int)
    requires
        0 <= i < n <= cs@.len(),
        children_wf(cs, n),
    ensures
        node_wf(cs@[i]),
    decreases n,
{
    if i < n - 1 {
        lemma_children_wf_elem(cs, i, n - 1);
    }
}

/// A procedure-pass error stays once it appears.
proof fn lemma_procs_err_mono(cs: Vec<Node>, i: int, j: int)
    requires
        0 <= i <= j <= cs@.len(),
        procs_err(cs, i) is Some,
    ensures
        procs_err(cs, j) == procs_err(cs, i),
    decreases j,
{
    if j > i {
        lemma_procs_err_mono(cs, i, j - 1);
    }
}

/// A body-pass error stays once it appears.
proof fn lemma_body_err_mono(cs: Vec<Node>, i: int, j: int)
    requires
        0 <= i <= j <= cs@.len(),
        body_err(cs, i) is Some,
    ensures
        body_err(cs, j) == body_err(cs, i),
    decreases j,
{
    if j > i {
        lemma_body_err_mono(cs, i, j - 1);
    }
}

/// Appends the warnings for a group's own unsupported attributes.
#[verifier::rlimit(100)]
fn push_own_warnings(g: &Group, warnings: &mut Vec<Warning>)
    requires
        g.opacity.wf(),
    ensures
        final(warnings)@ == old(warnings)@ + own_warnings(*g),
{
    let ghost w0 = warnings@;
    if !fuzzy_eq_const(&g.opacity, 1) {
        warnings.push(Warning::GroupOpacity);
    }
    proof {
        assert(warnings@ =~= w0 + (if !dec_fuzzy_eq(g.opacity, 1) {
            seq![Warning::GroupOpacity]
        } else {
            Seq::empty()
        }));
    }
    let ghost w1 = warnings@;
    if !g.blend_mode_default {
        warnings.push(Warning::BlendMode);
    }
    proof {
        assert(warnings@ =~= w1 + (if !g.blend_mode_default {
            seq![Warning::BlendMode]
        } else {
            Seq::empty()
        }));
    }
    let ghost w2 = warnings@;
    if g.isolate {
        warnings.push(Warning::Isolation);
    }
    proof {
        assert(warnings@ =~= w2 + (if g.isolate {
            seq![Warning::Isolation]
        } else {
            Seq::empty()
        }));
    }
    let ghost w3 = warnings@;
    if g.clip_path.is_some() {
        warnings.push(Warning::ClipPath);
    }
    proof {
        assert(warnings@ =~= w3 + (if g.clip_path is Some {
            seq![Warning::ClipPath]
        } else {
            Seq::empty()
        }));
    }
    let ghost w4 = warnings@;
    if g.mask.is_some() {
        warnings.push(Warning::Mask);
    }
    proof {
        assert(warnings@ =~= w4 + (if g.mask is Some {
            seq![Warning::Mask]
        } else {
            Seq::empty()
        }));
    }
    let ghost w5 = warnings@;
    if g.has_filters || g.has_filter_fill || g.has_filter_stroke {
        warnings.push(Warning::Filters);
    }
    proof {
        assert(warnings@ =~= w5 + (if g.has_filters || g.has_filter_fill || g.has_filter_stroke {
            seq![Warning::Filters]
        } else {
            Seq::empty()
        }));
    }
    let ghost w6 = warnings@;
    if g.has_enable_background {
        warnings.push(Warning::EnableBackground);
    }
    proof {
        assert(warnings@ =~= w6 + (if g.has_enable_background {
            seq![Warning::EnableBackground]
        } else {
            Seq::empty()
        }));
        let o = old(warnings)@;
        let p1 = if !dec_fuzzy_eq(g.opacity, 1) {
            seq![Warning::GroupOpacity]
        } else {
            Seq::<Warning>::empty()
        };
        let p2 = if !g.blend_mode_default {
            seq![Warning::BlendMode]
        } else {
            Seq::<Warning>::empty()
        };
        let p3 = if g.isolate {
            seq![Warning::Isolation]
        } else {
            Seq::<Warning>::empty()
        };
        let p4 = if g.clip_path is Some {
            seq![Warning::ClipPath]
        } else {
            Seq::<Warning>::empty()
        };
        let p5 = if g.mask is Some {
            seq![Warning::Mask]
        } else {
            Seq::<Warning>::empty()
        };
        let p6 = if g.has_filters || g.has_filter_fill || g.has_filter_stroke {
            seq![Warning::Filters]
        } else {
            Seq::<Warning>::empty()
        };
        let p7 = if g.has_enable_background {
            seq![Warning::EnableBackground]
        } else {
            Seq::<Warning>::empty()
        };
        lemma_seq_assoc(o, p1, p2);
        lemma_seq_assoc(o, p1 + p2, p3);
        lemma_seq_assoc(o, p1 + p2 + p3, p4);
        lemma_seq_assoc(o, p1 + p2 + p3 + p4, p5);
        lemma_seq_assoc(o, p1 + p2 + p3 + p4 + p5, p6);
        lemma_seq_assoc(o, p1 + p2 + p3 + p4 + p5 + p6, p7);
        assert(final(warnings)@ == o + own_warnings(*g));
    }
}

/// Appends the footer of a group's procedure.
fn push_footer(g: &Group, s: &mut String, is_root: bool, opt: &AsyOptions)
    requires
        g.transform.wf(),
    ensures
        final(s)@ == old(s)@ + group_footer_text(*g, is_root, *opt),
{
    let tf = if is_root {
        g.transform.flip_y()
    } else {
        g.transform
    };
    let ghost o = s@;
    if tf.is_default() {
        s.append("\treturn pic;\n");
        s.append("}\n");
        proof {
            lemma_seq_assoc(o, "\treturn pic;\n"@, "}\n"@);
        }
    } else {
        s.append("\ttransform t = ");
        let t = tf.transpile(opt);
        s.append(t.as_str());
        s.append(";\n");
        s.append("\treturn t * pic;\n");
        s.append("}\n");
        proof {
            let a = "\ttransform t = "@;
            let tt = transform_text(tf, *opt);
            let b = ";\n"@;
            let c = "\treturn t * pic;\n"@;
            let d = "}\n"@;
            lemma_seq_assoc(o, a, tt);
            lemma_seq_assoc(o, a + tt, b);
            lemma_seq_assoc(o, a + tt + b, c);
            lemma_seq_assoc(o, a + tt + b + c, d);
        }
    }
    proof {
        assert(final(s)@ == old(s)@ + group_footer_text(*g, is_root, *opt));
    }
}

/// Assembling the pieces in emission order yields the group's text.
proof fn lemma_group_assemble(
    sfinal: Seq<char>,
    header: Seq<char>,
    g: Group,
    is_root: bool,
    opt: AsyOptions,
)
    requires
        header == procs_text(g.children, g.children@.len() as int, opt) + "picture pic"@
            + dec_digits(node_id(Node::Group(g)) as nat) + "() {\n"@ + "\tpicture pic;\n"@,
        sfinal == (header + body_text(g.children, g.children@.len() as int, opt))
            + group_footer_text(g, is_root, opt),
    ensures
        sfinal == group_text(g, is_root, opt),
{
}

/// Assembling the warning runs in emission order yields the group's
/// warnings.
proof fn lemma_group_warns_assemble(wfinal: Seq<Warning>, base: Seq<Warning>, g: Group)
    requires
        wfinal == ((base + own_warnings(g)) + procs_warnings(
            g.children,
            g.children@.len() as int,
        )) + body_warnings(g.children, g.children@.len() as int),
    ensures
        wfinal == base + group_warnings(g),
{
    let ow = own_warnings(g);
    let pw = procs_warnings(g.children, g.children@.len() as int);
    let bw = body_warnings(g.children, g.children@.len() as int);
    lemma_seq_assoc(base, ow, pw);
    lemma_seq_assoc(base, ow + pw, bw);
}

impl Group {
    /// Renders the group as one procedure returning a picture, preceded
    /// by the procedures of its nested groups.  Unsupported attributes
    /// and node kinds are warned about and dropped; an unimplemented
    /// paint anywhere below aborts the conversion.
    #[verifier::rlimit(100)]
    pub fn transpile(&self, is_root: bool, opt: &AsyOptions, warnings: &mut Vec<Warning>) -> (r:
        Result<String, AsyError>)
        requires
            node_wf(Node::Group(*self)),
            ids_assigned(Node::Group(*self)),
        ensures
            match r {
                Ok(s) => group_paint_err(*self) is None && s@ == group_text(*self, is_root, *opt)
                    && final(warnings)@ == old(warnings)@ + group_warnings(*self),
                Err(e) => group_paint_err(*self) == Some(e),
            },
        decreases children_size(self.children, self.children@.len() as int),
    {
        let ghost cs = self.children;
        let ghost n = self.children@.len() as int;
        push_own_warnings(self, warnings);
        let ghost after_own = warnings@;
        let mut s = String::new();
        let mut i: usize = 0;
        while i < self.children.len()
            invariant
                i <= self.children@.len(),
                cs == self.children,
                n == self.children@.len() as int,
                node_wf(Node::Group(*self)),
                ids_assigned(Node::Group(*self)),
                s@ == procs_text(cs, i as int, *opt),
                warnings@ == after_own + procs_warnings(cs, i as int),
                after_own == old(warnings)@ + own_warnings(*self),
                procs_err(cs, i as int) is None,
            decreases self.children@.len() - i,
        {
            proof {
                lemma_children_props(cs, i as int, n);
            }
            match &self.children[i] {
                Node::Group(g2) => {
                    proof {
                        lemma_child_size(cs, i as int, n);
                        assert(cs@[i as int].size() == 1 + children_size(
                            g2.children,
                            g2.children@.len() as int,
                        ));
                    }
                    let t = match g2.transpile(false, opt, warnings) {
                        Ok(t) => t,
                        Err(e) => {
                            proof {
                                assert(procs_err(cs, i + 1 as int) == Some(e));
                                lemma_procs_err_mono(cs, i + 1 as int, n);
                            }
                            return Err(e);
                        },
                    };
                    s.append(t.as_str());
                },
                _ => {
                    proof {
                        assert(s@ + Seq::<char>::empty() =~= s@);
                        assert(warnings@ + Seq::<Warning>::empty() =~= warnings@);
                    }
                },
            }
            i = i + 1;
        }
        let ghost procs = s@;
        let ghost after_procs = warnings@;
        s.append("picture pic");
        let gid = self.id.unwrap();
        push_digits(&mut s, gid as u128);
        s.append("() {\n");
        s.append("\tpicture pic;\n");
        let ghost header = s@;
        let mut i: usize = 0;
        while i < self.children.len()
            invariant
                i <= self.children@.len(),
                cs == self.children,
                n == self.children@.len() as int,
                node_wf(Node::Group(*self)),
                ids_assigned(Node::Group(*self)),
                s@ == header + body_text(cs, i as int, *opt),
                warnings@ == after_procs + body_warnings(cs, i as int),
                after_procs == old(warnings)@ + own_warnings(*self) + procs_warnings(cs, n),
                header == procs_text(cs, n, *opt) + "picture pic"@ + dec_digits(
                    node_id(Node::Group(*self)) as nat,
                ) + "() {\n"@ + "\tpicture pic;\n"@,
                procs_err(cs, n) is None,
                body_err(cs, i as int) is None,
            decreases self.children@.len() - i,
        {
            proof {
                lemma_children_props(cs, i as int, n);
            }
            let ghost prev = s@;
            match &self.children[i] {
                Node::Group(g2) => {
                    s.append("\tadd(pic, pic");
                    push_digits(&mut s, g2.id.unwrap() as u128);
                    s.append("());\n");
                    proof {
                        assert(s@ =~= prev + ("\tadd(pic, pic"@ + dec_digits(
                            node_id(cs@[i as int]) as nat,
                        ) + "());\n"@));
                        assert(warnings@ + Seq::<Warning>::empty() =~= warnings@);
                    }
                },
                Node::Path(p) => {
                    let t = match p.transpile(opt, warnings) {
                        Ok(t) => t,
                        Err(e) => {
                            proof {
                                assert(body_err(cs, i + 1 as int) == Some(e));
                                lemma_body_err_mono(cs, i + 1 as int, n);
                            }
                            return Err(e);
                        },
                    };
                    s.append(t.as_str());
                },
                Node::Image { .. } => {
                    warnings.push(Warning::Image);
                    proof {
                        assert(s@ + Seq::<char>::empty() =~= s@);
                        assert(warnings@ =~= after_procs + body_warnings(cs, i + 1 as int));
                    }
                },
                Node::Text { .. } => {
                    warnings.push(Warning::Text);
                    proof {
                        assert(s@ + Seq::<char>::empty() =~= s@);
                        assert(warnings@ =~= after_procs + body_warnings(cs, i + 1 as int));
                    }
                },
            }
            i = i + 1;
        }
        push_footer(self, &mut s, is_root, opt);
        proof {
            lemma_group_assemble(s@, header, *self, is_root, *opt);
            lemma_group_warns_assemble(warnings@, old(warnings)@, *self);
        }
        Ok(s)
    }
}

} // verus!
