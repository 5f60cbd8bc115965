//! Rendering of path geometry.
//!
//! A path's segment list is split into subpaths at MoveTo and ClosePath
//! boundaries; each subpath is rendered from its own starting point, and
//! the paint statements follow the path's paint order.
use vstd::prelude::*;
use vstd::string::StringExecFns;

use crate::asy::{dec_digits, spec_format, format_dec, push_digits, Asy, Dec};
use crate::group::{transform_is_default, Transform};
use crate::pen::{fill_text, paint_err, stroke_text, Fill, Stroke};
use crate::{AsyError, AsyOptions, Warning};

verus! {

/// One segment of a path.  A MoveTo only ever starts a subpath; it is
/// never rendered as a drawing segment.
#[derive(Clone, Copy, PartialEq, Eq, Structural, Debug)]
pub enum PathSegment {
    MoveTo { x: Dec, y: Dec },
    LineTo { x: Dec, y: Dec },
    CurveTo { x1: Dec, y1: Dec, x2: Dec, y2: Dec, x: Dec, y: Dec },
    ClosePath,
}

/// How fill and stroke are ordered when both are present.
#[derive(Clone, Copy, PartialEq, Eq, Structural, Debug)]
pub enum PaintOrder {
    /// One combined fill-then-stroke operation.
    FillAndStroke,
    FillThenStroke,
    StrokeThenFill,
}

/// A drawable path.
#[derive(Clone, Debug)]
pub struct Path {
    pub id: Option<u64>,
    pub transform: Transform,
    pub visible: bool,
    pub fill: Option<Fill>,
    pub stroke: Option<Stroke>,
    pub paint_order: PaintOrder,
    pub data: Vec<PathSegment>,
}

/// A maximal run of drawing segments with its starting point.
#[derive(Clone, Debug)]
pub struct Subpath {
    pub x: Dec,
    pub y: Dec,
    pub segs: Vec<PathSegment>,
}

impl Subpath {
    /// The mathematical content of a subpath.
    pub open spec fn model(&self) -> (Dec, Dec, Seq<PathSegment>) {
        (self.x, self.y, self.segs@)
    }
}

pub open spec fn seg_is_move(s: PathSegment) -> bool {
    s matches PathSegment::MoveTo { .. }
}

impl PathSegment {
    /// All coordinates are well-formed decimals.
    pub open spec fn wf(&self) -> bool {
        match *self {
            PathSegment::MoveTo { x, y } => x.wf() && y.wf(),
            PathSegment::LineTo { x, y } => x.wf() && y.wf(),
            PathSegment::CurveTo { x1, y1, x2, y2, x, y } => x1.wf() && y1.wf() && x2.wf()
                && y2.wf() && x.wf() && y.wf(),
            PathSegment::ClosePath => true,
        }
    }
}

/// The text of a coordinate pair.
pub open spec fn point_text(x: Dec, y: Dec, opt: AsyOptions) -> Seq<char> {
    "("@ + spec_format(x, opt.precision) + ", "@ + spec_format(y, opt.precision) + ")"@
}

/// The text of one drawing segment: a straight-line token, a cubic
/// Bezier token with its two control points, or the close-cycle token.
pub open spec fn seg_text(seg: PathSegment, opt: AsyOptions) -> Seq<char> {
    match seg {
        PathSegment::MoveTo { .. } => Seq::empty(),
        PathSegment::LineTo { x, y } => " -- "@ + point_text(x, y, opt),
        PathSegment::CurveTo { x1, y1, x2, y2, x, y } => " .. controls "@ + point_text(
            x1,
            y1,
            opt,
        ) + " and "@ + point_text(x2, y2, opt) + " .. "@ + point_text(x, y, opt),
        PathSegment::ClosePath => " -- cycle"@,
    }
}

/// Appends the text of a coordinate pair.
fn push_point(s: &mut String, x: &Dec, y: &Dec, opt: &AsyOptions)
    requires
        x.wf(),
        y.wf(),
    ensures
        final(s)@ == old(s)@ + point_text(*x, *y, *opt),
{
    s.append("(");
    let t = format_dec(x, opt.precision);
    s.append(t.as_str());
    s.append(", ");
    let t = format_dec(y, opt.precision);
    s.append(t.as_str());
    s.append(")");
    proof {
        assert(final(s)@ =~= old(s)@ + point_text(*x, *y, *opt));
    }
}

impl Asy for PathSegment {
    /// A segment can be rendered when its coordinates are well formed and
    /// it is a drawing segment: rendering a MoveTo is a contract
    /// violation, since subpath splitting consumes every MoveTo.
    open spec fn asy_wf(&self) -> bool {
        self.wf() && !seg_is_move(*self)
    }

    open spec fn asy_spec(&self, opt: AsyOptions) -> Seq<char> {
        seg_text(*self, opt)
    }

    fn transpile(&self, opt: &AsyOptions) -> (r: String) {
        let mut s = String::new();
        match self {
            PathSegment::MoveTo { .. } => {
                proof {
                    assert(false);
                }
            },
            PathSegment::LineTo { x, y } => {
                s.append(" -- ");
                push_point(&mut s, x, y, opt);
            },
            PathSegment::CurveTo { x1, y1, x2, y2, x, y } => {
                s.append(" .. controls ");
                push_point(&mut s, x1, y1, opt);
                s.append(" and ");
                push_point(&mut s, x2, y2, opt);
                s.append(" .. ");
                push_point(&mut s, x, y, opt);
            },
            PathSegment::ClosePath => {
                s.append(" -- cycle");
            },
        }
        proof {
            assert(s@ =~= seg_text(*self, *opt));
        }
        s
    }
}

/// The state of the subpath scan: the current starting point, the
/// segments accumulated since the last boundary, and the finished
/// subpaths.
pub struct SplitState {
    pub ix: Dec,
    pub iy: Dec,
    pub cur: Seq<PathSegment>,
    pub done: Seq<(Dec, Dec, Seq<PathSegment>)>,
}

/// The default starting point of the first subpath is the origin.
pub open spec fn split_init() -> SplitState {
    SplitState {
        ix: Dec { neg: false, coeff: 0, scale: 0 },
        iy: Dec { neg: false, coeff: 0, scale: 0 },
        cur: Seq::empty(),
        done: Seq::empty(),
    }
}

/// One step of the subpath scan: a MoveTo flushes the accumulated
/// subpath (if non-empty) and starts a new one at its point; a ClosePath
/// becomes the final segment of the subpath it terminates; drawing
/// segments accumulate.
pub open spec fn split_step(st: SplitState, seg: PathSegment) -> SplitState {
    match seg {
        PathSegment::MoveTo { x, y } => SplitState {
            ix: x,
            iy: y,
            cur: Seq::empty(),
            done: if st.cur.len() == 0 {
                st.done
            } else {
                st.done.push((st.ix, st.iy, st.cur))
            },
        },
        PathSegment::ClosePath => SplitState {
            ix: st.ix,
            iy: st.iy,
            cur: Seq::empty(),
            done: st.done.push((st.ix, st.iy, st.cur.push(seg))),
        },
        _ => SplitState { ix: st.ix, iy: st.iy, cur: st.cur.push(seg), done: st.done },
    }
}

/// The scan state after the first `i` segments, starting from `st`.
pub open spec fn split_run_from(st: SplitState, segs: Seq<PathSegment>, i: int) -> SplitState
    decreases i,
{
    if i <= 0 {
        st
    } else {
        split_step(split_run_from(st, segs, i - 1), segs[i - 1])
    }
}

/// The subpaths of a segment list: the scan of the whole list, with a
/// final non-empty accumulation flushed as the last subpath.
pub open spec fn spec_split(segs: Seq<PathSegment>) -> Seq<(Dec, Dec, Seq<PathSegment>)> {
    let st = split_run_from(split_init(), segs, segs.len() as int);
    if st.cur.len() == 0 {
        st.done
    } else {
        st.done.push((st.ix, st.iy, st.cur))
    }
}

/// No segment of the sequence is a MoveTo.
pub open spec fn all_drawable(ss: Seq<PathSegment>) -> bool {
    forall|j: int| 0 <= j < ss.len() ==> !seg_is_move(ss[j])
}

/// Every segment of the sequence is well formed.
pub open spec fn all_seg_wf(ss: Seq<PathSegment>) -> bool {
    forall|j: int| 0 <= j < ss.len() ==> ss[j].wf()
}

/// A subpath is non-empty and holds only drawing segments.
pub open spec fn sub_ok(sp: (Dec, Dec, Seq<PathSegment>)) -> bool {
    sp.2.len() > 0 && all_drawable(sp.2)
}

/// A subpath's starting point and segments are well formed.
pub open spec fn sub_wf(sp: (Dec, Dec, Seq<PathSegment>)) -> bool {
    sp.0.wf() && sp.1.wf() && all_seg_wf(sp.2)
}

/// Every subpath is non-empty and holds only drawing segments.
pub open spec fn subs_ok(subs: Seq<(Dec, Dec, Seq<PathSegment>)>) -> bool {
    forall|i: int| 0 <= i < subs.len() ==> sub_ok(#[trigger] subs[i])
}

/// Every subpath has well-formed contents.
pub open spec fn subs_wf(subs: Seq<(Dec, Dec, Seq<PathSegment>)>) -> bool {
    forall|i: int| 0 <= i < subs.len() ==> sub_wf(#[trigger] subs[i])
}

/// The scan state stays well formed: accumulated and finished segments
/// are drawing segments, finished subpaths are non-empty, and contents
/// stay well formed when the input is.
proof fn lemma_split_run_props(st: SplitState, segs: Seq<PathSegment>, i: int)
    requires
        0 <= i <= segs.len(),
        all_drawable(st.cur),
        all_seg_wf(st.cur),
        st.ix.wf(),
        st.iy.wf(),
        subs_ok(st.done),
        subs_wf(st.done),
        all_seg_wf(segs),
    ensures
        all_drawable(split_run_from(st, segs, i).cur),
        all_seg_wf(split_run_from(st, segs, i).cur),
        split_run_from(st, segs, i).ix.wf(),
        split_run_from(st, segs, i).iy.wf(),
        subs_ok(split_run_from(st, segs, i).done),
        subs_wf(split_run_from(st, segs, i).done),
    decreases i,
{
    if i > 0 {
        lemma_split_run_props(st, segs, i - 1);
        let prev = split_run_from(st, segs, i - 1);
        let seg = segs[i - 1];
        assert(seg.wf());
        match seg {
            PathSegment::MoveTo { x, y } => {
                if prev.cur.len() > 0 {
                    assert(sub_ok((prev.ix, prev.iy, prev.cur)));
                    assert(sub_wf((prev.ix, prev.iy, prev.cur)));
                    assert(subs_ok(prev.done.push((prev.ix, prev.iy, prev.cur))));
                    assert(subs_wf(prev.done.push((prev.ix, prev.iy, prev.cur))));
                }
            },
            PathSegment::ClosePath => {
                assert(all_drawable(prev.cur.push(seg)));
                assert(all_seg_wf(prev.cur.push(seg)));
                assert(sub_ok((prev.ix, prev.iy, prev.cur.push(seg))));
                assert(sub_wf((prev.ix, prev.iy, prev.cur.push(seg))));
                assert(subs_ok(prev.done.push((prev.ix, prev.iy, prev.cur.push(seg)))));
                assert(subs_wf(prev.done.push((prev.ix, prev.iy, prev.cur.push(seg)))));
            },
            _ => {
                assert(all_drawable(prev.cur.push(seg)));
                assert(all_seg_wf(prev.cur.push(seg)));
            },
        }
    }
}

/// The subpaths of a well-formed segment list are non-empty, well formed,
/// and free of MoveTo segments.
pub proof fn lemma_split_props(segs: Seq<PathSegment>)
    requires
        all_seg_wf(segs),
    ensures
        subs_ok(spec_split(segs)),
        subs_wf(spec_split(segs)),
{
    lemma_split_run_props(split_init(), segs, segs.len() as int);
    let st = split_run_from(split_init(), segs, segs.len() as int);
    if st.cur.len() > 0 {
        assert(sub_ok((st.ix, st.iy, st.cur)));
        assert(sub_wf((st.ix, st.iy, st.cur)));
        assert(subs_ok(st.done.push((st.ix, st.iy, st.cur))));
        assert(subs_wf(st.done.push((st.ix, st.iy, st.cur))));
    }
}

/// The content of a sequence of subpaths.
pub open spec fn subpaths_model(v: Seq<Subpath>) -> Seq<(Dec, Dec, Seq<PathSegment>)> {
    v.map_values(|sp: Subpath| sp.model())
}

/// Splits a segment list into its subpaths: each MoveTo starts a new
/// subpath at its point (flushing a non-empty accumulation), each
/// ClosePath terminates one, and empty accumulations are discarded.
pub fn split_subpaths(data: &Vec<PathSegment>) -> (r: Vec<Subpath>)
    ensures
        subpaths_model(r@) == spec_split(data@),
{
    let mut done: Vec<Subpath> = Vec::new();
    let mut cur: Vec<PathSegment> = Vec::new();
    let mut ix = Dec { neg: false, coeff: 0, scale: 0 };
    let mut iy = Dec { neg: false, coeff: 0, scale: 0 };
    let mut i: usize = 0;
    proof {
        assert(subpaths_model(done@) =~= Seq::<(Dec, Dec, Seq<PathSegment>)>::empty());
        assert(cur@ =~= Seq::<PathSegment>::empty());
    }
    while i < data.len()
        invariant
            i <= data.len(),
            split_run_from(split_init(), data@, i as int) == (SplitState {
                ix: ix,
                iy: iy,
                cur: cur@,
                done: subpaths_model(done@),
            }),
        decreases data.len() - i,
    {
        let ghost prev = split_run_from(split_init(), data@, i as int);
        let seg = data[i];
        match seg {
            PathSegment::MoveTo { x, y } => {
                if cur.len() > 0 {
                    let sp = Subpath { x: ix, y: iy, segs: cur };
                    proof {
                        assert(subpaths_model(done@.push(sp)) =~= subpaths_model(done@).push(
                            sp.model(),
                        ));
                    }
                    done.push(sp);
                    cur = Vec::new();
                } else {
                    proof {
                        assert(cur@ =~= Seq::<PathSegment>::empty());
                    }
                }
                ix = x;
                iy = y;
            },
            PathSegment::ClosePath => {
                cur.push(seg);
                let sp = Subpath { x: ix, y: iy, segs: cur };
                proof {
                    assert(subpaths_model(done@.push(sp)) =~= subpaths_model(done@).push(
                        sp.model(),
                    ));
                }
                done.push(sp);
                cur = Vec::new();
            },
            _ => {
                cur.push(seg);
            },
        }
        proof {
            assert(split_run_from(split_init(), data@, i + 1 as int) == split_step(
                prev,
                data@[i as int],
            ));
        }
        i = i + 1;
    }
    if cur.len() > 0 {
        let sp = Subpath { x: ix, y: iy, segs: cur };
        proof {
            assert(subpaths_model(done@.push(sp)) =~= subpaths_model(done@).push(sp.model()));
        }
        done.push(sp);
    }
    proof {
        assert(subpaths_model(done@) =~= spec_split(data@));
    }
    done
}

/// The concatenated text of a subpath's drawing segments.
pub open spec fn segs_text(ss: Seq<PathSegment>, opt: AsyOptions) -> Seq<char>
    decreases ss.len(),
{
    if ss.len() == 0 {
        Seq::empty()
    } else {
        segs_text(ss.drop_last(), opt) + seg_text(ss.last(), opt)
    }
}

/// The text of one subpath: its starting point followed by its segments.
pub open spec fn subpath_text(sp: (Dec, Dec, Seq<PathSegment>), opt: AsyOptions) -> Seq<char> {
    point_text(sp.0, sp.1, opt) + segs_text(sp.2, opt)
}

/// The array entries of a multi-subpath path variable.
pub open spec fn subs_entries_text(
    subs: Seq<(Dec, Dec, Seq<PathSegment>)>,
    opt: AsyOptions,
) -> Seq<char>
    decreases subs.len(),
{
    if subs.len() == 0 {
        Seq::empty()
    } else {
        subs_entries_text(subs.drop_last(), opt) + "\t\t"@ + subpath_text(subs.last(), opt)
            + ",\n"@
    }
}

/// The path-variable statement: a scalar path for a single subpath, an
/// array of paths otherwise.
pub open spec fn path_var_text(
    id: u64,
    subs: Seq<(Dec, Dec, Seq<PathSegment>)>,
    opt: AsyOptions,
) -> Seq<char> {
    if subs.len() == 1 {
        "\tpath p"@ + dec_digits(id as nat) + " = "@ + subpath_text(subs[0], opt) + ";\n"@
    } else {
        "\tpath[] p"@ + dec_digits(id as nat) + " = {\n"@ + subs_entries_text(subs, opt)
            + "\t};\n"@
    }
}

/// The named transform statement, emitted only when the path's transform
/// is not the identity.
pub open spec fn path_tf_text(p: Path, id: u64, opt: AsyOptions) -> Seq<char> {
    if transform_is_default(p.transform) {
        Seq::empty()
    } else {
        "\ttransform t"@ + dec_digits(id as nat) + " = "@ + crate::group::transform_text(
            p.transform,
            opt,
        ) + ";\n"@
    }
}

/// The path reference in a paint statement: the transform is applied by
/// left-multiplying the path when it is not the identity.
pub open spec fn path_ref_text(id: u64, tfd: bool) -> Seq<char> {
    if tfd {
        "p"@ + dec_digits(id as nat)
    } else {
        "t"@ + dec_digits(id as nat) + " * p"@ + dec_digits(id as nat)
    }
}

/// A paint statement with one pen.
pub open spec fn paint_call1(method: Seq<char>, id: u64, tfd: bool, pen: Seq<char>) -> Seq<char> {
    "\t"@ + method + "(pic, "@ + path_ref_text(id, tfd) + ", "@ + pen + ");\n"@
}

/// A paint statement with two pens.
pub open spec fn paint_call2(
    method: Seq<char>,
    id: u64,
    tfd: bool,
    pen1: Seq<char>,
    pen2: Seq<char>,
) -> Seq<char> {
    "\t"@ + method + "(pic, "@ + path_ref_text(id, tfd) + ", "@ + pen1 + ", "@ + pen2 + ");\n"@
}

/// The first fatal paint error the path's paint statements meet, in
/// emission order: in the combined statement the fill pen is rendered
/// first; in the separate statements the stroke pen is rendered first.
pub open spec fn path_paint_err(p: Path) -> Option<AsyError> {
    match (p.fill, p.stroke) {
        (Some(f), Some(st)) => if p.paint_order == PaintOrder::FillAndStroke {
            if paint_err(f.paint) is Some {
                paint_err(f.paint)
            } else {
                paint_err(st.paint)
            }
        } else {
            if paint_err(st.paint) is Some {
                paint_err(st.paint)
            } else {
                paint_err(f.paint)
            }
        },
        (Some(f), None) => paint_err(f.paint),
        (None, Some(st)) => paint_err(st.paint),
        (None, None) => None,
    }
}

/// The paint statements of a path.  When both fill and stroke are present
/// and the paint order asks for the combined semantics, one combined
/// fill-then-stroke statement is emitted; otherwise the stroke statement
/// (if any) is followed by the fill statement (if any).
pub open spec fn path_paints_text(p: Path, id: u64, opt: AsyOptions) -> Seq<char> {
    let tfd = transform_is_default(p.transform);
    match (p.fill, p.stroke) {
        (Some(f), Some(st)) => if p.paint_order == PaintOrder::FillAndStroke {
            paint_call2("filldraw"@, id, tfd, fill_text(f, opt), stroke_text(st, opt))
        } else {
            paint_call1("draw"@, id, tfd, stroke_text(st, opt)) + paint_call1(
                "fill"@,
                id,
                tfd,
                fill_text(f, opt),
            )
        },
        (Some(f), None) => paint_call1("fill"@, id, tfd, fill_text(f, opt)),
        (None, Some(st)) => paint_call1("draw"@, id, tfd, stroke_text(st, opt)),
        (None, None) => Seq::empty(),
    }
}

/// The whole text a path contributes to its parent's procedure body.
pub open spec fn path_text(p: Path, id: u64, opt: AsyOptions) -> Seq<char> {
    path_var_text(id, spec_split(p.data@), opt) + path_tf_text(p, id, opt) + path_paints_text(
        p,
        id,
        opt,
    )
}

/// The warnings a path emits: a non-default visibility is not supported.
pub open spec fn path_warnings(p: Path) -> Seq<Warning> {
    if !p.visible {
        seq![Warning::PathVisibility]
    } else {
        Seq::empty()
    }
}

/// The segment text grows by one segment at a time.
proof fn lemma_segs_step(ss: Seq<PathSegment>, i: int, opt: AsyOptions)
    requires
        0 <= i < ss.len(),
    ensures
        segs_text(ss.take(i + 1), opt) == segs_text(ss.take(i), opt) + seg_text(ss[i], opt),
{
    assert(ss.take(i + 1).drop_last() =~= ss.take(i));
    assert(ss.take(i + 1).last() == ss[i]);
}

/// Appends the text of one subpath.
#[verifier::rlimit(100)]
fn push_subpath(s: &mut String, sp: &Subpath, opt: &AsyOptions)
    requires
        sp.x.wf(),
        sp.y.wf(),
        all_seg_wf(sp.segs@),
        all_drawable(sp.segs@),
    ensures
        final(s)@ == old(s)@ + subpath_text(sp.model(), *opt),
{
    push_point(s, &sp.x, &sp.y, opt);
    let mut i: usize = 0;
    while i < sp.segs.len()
        invariant
            i <= sp.segs.len(),
            all_seg_wf(sp.segs@),
            all_drawable(sp.segs@),
            s@ == old(s)@ + point_text(sp.x, sp.y, *opt) + segs_text(
                sp.segs@.take(i as int),
                *opt,
            ),
        decreases sp.segs.len() - i,
    {
        let t = sp.segs[i].transpile(opt);
        s.append(t.as_str());
        proof {
            lemma_segs_step(sp.segs@, i as int, *opt);
            assert(s@ =~= old(s)@ + point_text(sp.x, sp.y, *opt) + segs_text(
                sp.segs@.take(i + 1 as int),
                *opt,
            ));
        }
        i = i + 1;
    }
    proof {
        assert(sp.segs@.take(sp.segs@.len() as int) =~= sp.segs@);
        assert(final(s)@ =~= old(s)@ + subpath_text(sp.model(), *opt));
    }
}

/// Appends one paint statement with one or two pens.
fn push_paint_call(
    s: &mut String,
    method: &str,
    id: u64,
    tfd: bool,
    pen: &String,
    pen2: Option<&String>,
)
    ensures
        final(s)@ == old(s)@ + (match pen2 {
            Some(q) => paint_call2(method@, id, tfd, pen@, q@),
            None => paint_call1(method@, id, tfd, pen@),
        }),
{
    s.append("\t");
    s.append(method);
    s.append("(pic, ");
    if tfd {
        s.append("p");
        push_digits(s, id as u128);
    } else {
        s.append("t");
        push_digits(s, id as u128);
        s.append(" * p");
        push_digits(s, id as u128);
    }
    s.append(", ");
    s.append(pen.as_str());
    match pen2 {
        Some(q) => {
            s.append(", ");
            s.append(q.as_str());
        },
        None => (),
    }
    s.append(");\n");
    proof {
        assert(final(s)@ =~= old(s)@ + (match pen2 {
            Some(q) => paint_call2(method@, id, tfd, pen@, q@),
            None => paint_call1(method@, id, tfd, pen@),
        }));
    }
}

/// The array entry text grows by one entry at a time.
proof fn lemma_entries_step(subs: Seq<(Dec, Dec, Seq<PathSegment>)>, j: int, opt: AsyOptions)
    requires
        0 <= j < subs.len(),
    ensures
        subs_entries_text(subs.take(j + 1), opt) == subs_entries_text(subs.take(j), opt)
            + "\t\t"@ + subpath_text(subs[j], opt) + ",\n"@,
{
    assert(subs.take(j + 1).drop_last() =~= subs.take(j));
    assert(subs.take(j + 1).last() == subs[j]);
}

/// Appending one rendered entry extends the rendered entry list.
proof fn lemma_entry_concat(
    header: Seq<char>,
    prev: Seq<char>,
    cur: Seq<char>,
    model: Seq<(Dec, Dec, Seq<PathSegment>)>,
    j: int,
    opt: AsyOptions,
)
    requires
        0 <= j < model.len(),
        prev == header + subs_entries_text(model.take(j), opt),
        cur == prev + "\t\t"@ + subpath_text(model[j], opt) + ",\n"@,
    ensures
        cur == header + subs_entries_text(model.take(j + 1), opt),
{
    lemma_entries_step(model, j, opt);
    assert(cur =~= header + subs_entries_text(model.take(j + 1), opt));
}

/// Appends the path-variable statement.
#[verifier::rlimit(100)]
fn push_path_var(s: &mut String, id: u64, subs: &Vec<Subpath>, opt: &AsyOptions)
    requires
        subs_ok(subpaths_model(subs@)),
        subs_wf(subpaths_model(subs@)),
    ensures
        final(s)@ == old(s)@ + path_var_text(id, subpaths_model(subs@), *opt),
{
    let ghost model = subpaths_model(subs@);
    if subs.len() == 1 {
        s.append("\tpath p");
        push_digits(s, id as u128);
        s.append(" = ");
        proof {
            assert(subs@[0].model() == subpaths_model(subs@)[0]);
            assert(sub_ok(model[0]) && sub_wf(model[0]));
        }
        push_subpath(s, &subs[0], opt);
        s.append(";\n");
        proof {
            assert(final(s)@ =~= old(s)@ + path_var_text(id, model, *opt));
        }
    } else {
        s.append("\tpath[] p");
        push_digits(s, id as u128);
        s.append(" = {\n");
        let ghost header = s@;
        let mut j: usize = 0;
        while j < subs.len()
            invariant
                j <= subs.len(),
                subpaths_model(subs@) == model,
                subs_ok(model),
                subs_wf(model),
                s@ == header + subs_entries_text(model.take(j as int), *opt),
            decreases subs.len() - j,
        {
            let ghost prev = s@;
            s.append("\t\t");
            proof {
                assert(subs@[j as int].model() == subpaths_model(subs@)[j as int]);
                assert(sub_ok(model[j as int]) && sub_wf(model[j as int]));
            }
            push_subpath(s, &subs[j], opt);
            s.append(",\n");
            proof {
                lemma_entry_concat(header, prev, s@, model, j as int, *opt);
            }
            j = j + 1;
        }
        s.append("\t};\n");
        proof {
            assert(model.take(model.len() as int) =~= model);
            assert(final(s)@ =~= old(s)@ + path_var_text(id, model, *opt));
        }
    }
}

impl Path {
    /// All numeric attributes of the path are well formed.
    pub open spec fn wf(&self) -> bool {
        &&& self.transform.wf()
        &&& all_seg_wf(self.data@)
        &&& match self.fill {
            Some(f) => f.wf(),
            None => true,
        }
        &&& match self.stroke {
            Some(st) => st.wf(),
            None => true,
        }
    }

    /// Appends the paint statements, or reports the first fatal paint
    /// error in emission order.
    #[verifier::rlimit(100)]
    fn push_paints(&self, s: &mut String, id: u64, tfd: bool, opt: &AsyOptions) -> (r: Result<
        (),
        AsyError,
    >)
        requires
            self.wf(),
            tfd == transform_is_default(self.transform),
        ensures
            match r {
                Ok(_) => path_paint_err(*self) is None && final(s)@ == old(s)@
                    + path_paints_text(*self, id, *opt),
                Err(e) => path_paint_err(*self) == Some(e),
            },
    {
        match (&self.fill, &self.stroke) {
            (Some(f), Some(st)) => {
                if matches!(self.paint_order, PaintOrder::FillAndStroke) {
                    let fp = match f.transpile(opt) {
                        Ok(x) => x,
                        Err(e) => { return Err(e) },
                    };
                    let stp = match st.transpile(opt) {
                        Ok(x) => x,
                        Err(e) => { return Err(e) },
                    };
                    push_paint_call(s, "filldraw", id, tfd, &fp, Some(&stp));
                } else {
                    let stp = match st.transpile(opt) {
                        Ok(x) => x,
                        Err(e) => { return Err(e) },
                    };
                    push_paint_call(s, "draw", id, tfd, &stp, None);
                    let fp = match f.transpile(opt) {
                        Ok(x) => x,
                        Err(e) => { return Err(e) },
                    };
                    push_paint_call(s, "fill", id, tfd, &fp, None);
                }
            },
            (Some(f), None) => {
                let fp = match f.transpile(opt) {
                    Ok(x) => x,
                    Err(e) => { return Err(e) },
                };
                push_paint_call(s, "fill", id, tfd, &fp, None);
            },
            (None, Some(st)) => {
                let stp = match st.transpile(opt) {
                    Ok(x) => x,
                    Err(e) => { return Err(e) },
                };
                push_paint_call(s, "draw", id, tfd, &stp, None);
            },
            (None, None) => (),
        }
        proof {
            assert(final(s)@ =~= old(s)@ + path_paints_text(*self, id, *opt));
        }
        Ok(())
    }

    /// Renders the path into its parent's procedure body: the path
    /// variable, the optional transform statement and the paint
    /// statements, in that order.  A non-default visibility is warned
    /// about; an unimplemented paint aborts the conversion.
    #[verifier::rlimit(100)]
    pub fn transpile(&self, opt: &AsyOptions, warnings: &mut Vec<Warning>) -> (r: Result<
        String,
        AsyError,
    >)
        requires
            self.wf(),
            self.id is Some,
        ensures
            final(warnings)@ == old(warnings)@ + path_warnings(*self),
            match r {
                Ok(s) => path_paint_err(*self) is None && s@ == path_text(
                    *self,
                    self.id.unwrap(),
                    *opt,
                ),
                Err(e) => path_paint_err(*self) == Some(e),
            },
    {
        if !self.visible {
            warnings.push(Warning::PathVisibility);
        }
        proof {
            assert(warnings@ =~= old(warnings)@ + path_warnings(*self));
        }
        let id = self.id.unwrap();
        let subs = split_subpaths(&self.data);
        proof {
            lemma_split_props(self.data@);
        }
        let mut s = String::new();
        push_path_var(&mut s, id, &subs, opt);
        let ghost var_text = s@;
        let tfd = self.transform.is_default();
        if !tfd {
            s.append("\ttransform t");
            push_digits(&mut s, id as u128);
            s.append(" = ");
            let t = self.transform.transpile(opt);
            s.append(t.as_str());
            s.append(";\n");
        }
        proof {
            assert(s@ =~= var_text + path_tf_text(*self, id, *opt));
        }
        match self.push_paints(&mut s, id, tfd, opt) {
            Ok(_) => (),
            Err(e) => { return Err(e) },
        }
        proof {
            assert(s@ =~= path_text(*self, id, *opt));
        }
        Ok(s)
    }
}

/// Scanning a concatenation is scanning the first part, then the second.
proof fn lemma_split_append(st: SplitState, a: Seq<PathSegment>, b: Seq<PathSegment>, k: int)
    requires
        0 <= k <= b.len(),
    ensures
        split_run_from(st, a + b, a.len() + k) == split_run_from(
            split_run_from(st, a, a.len() as int),
            b,
            k,
        ),
    decreases k,
{
    if k == 0 {
        lemma_split_prefix_eq(st, a + b, a, a.len() as int);
    } else {
        lemma_split_append(st, a, b, k - 1);
        assert((a + b)[a.len() + k - 1] == b[k - 1]);
    }
}

/// The scan only reads the first `i` segments.
proof fn lemma_split_prefix_eq(st: SplitState, a: Seq<PathSegment>, b: Seq<PathSegment>, i: int)
    requires
        0 <= i <= a.len(),
        0 <= i <= b.len(),
        forall|j: int| 0 <= j < i ==> a[j] == b[j],
    ensures
        split_run_from(st, a, i) == split_run_from(st, b, i),
    decreases i,
{
    if i > 0 {
        lemma_split_prefix_eq(st, a, b, i - 1);
    }
}

/// Scanning a run of drawing segments (no MoveTo, no ClosePath) only
/// accumulates them.
proof fn lemma_split_drawing_range(st: SplitState, segs: Seq<PathSegment>, lo: int, hi: int)
    requires
        0 <= lo <= hi <= segs.len(),
        forall|j: int|
            lo <= j < hi ==> !seg_is_move(#[trigger] segs[j]) && segs[j]
                != PathSegment::ClosePath,
    ensures
        split_run_from(st, segs, hi) == (SplitState {
            ix: split_run_from(st, segs, lo).ix,
            iy: split_run_from(st, segs, lo).iy,
            cur: split_run_from(st, segs, lo).cur + segs.subrange(lo, hi),
            done: split_run_from(st, segs, lo).done,
        }),
    decreases hi - lo,
{
    let base = split_run_from(st, segs, lo);
    if hi == lo {
        assert(base.cur + segs.subrange(lo, lo) =~= base.cur);
    } else {
        lemma_split_drawing_range(st, segs, lo, hi - 1);
        assert(base.cur + segs.subrange(lo, hi) =~= (base.cur + segs.subrange(lo, hi - 1)).push(
            segs[hi - 1],
        ));
    }
}

/// A subpath block: a MoveTo, any number of drawing segments, and a
/// terminating ClosePath.
pub open spec fn is_closed_block(b: Seq<PathSegment>) -> bool {
    &&& b.len() >= 2
    &&& seg_is_move(b[0])
    &&& b.last() == PathSegment::ClosePath
    &&& forall|j: int|
        1 <= j < b.len() - 1 ==> !seg_is_move(#[trigger] b[j]) && b[j] != PathSegment::ClosePath
}

/// Scanning one closed block from a boundary state finishes exactly one
/// more subpath and returns to a boundary state.
proof fn lemma_split_one_block(st: SplitState, b: Seq<PathSegment>)
    requires
        st.cur.len() == 0,
        is_closed_block(b),
    ensures
        split_run_from(st, b, b.len() as int).cur.len() == 0,
        split_run_from(st, b, b.len() as int).done.len() == st.done.len() + 1,
    decreases b.len(),
{
    let st1 = split_run_from(st, b, 1);
    assert(st1 == split_step(st, b[0])) by {
        reveal_with_fuel(split_run_from, 3);
    }
    assert(st1.cur.len() == 0 && st1.done == st.done);
    lemma_split_drawing_range(st, b, 1, b.len() - 1);
    let st2 = split_run_from(st, b, b.len() - 1);
    assert(st2.done == st.done);
    assert(split_run_from(st, b, b.len() as int) == split_step(st2, b[b.len() - 1]));
}

pub open spec fn all_closed_blocks(blocks: Seq<Seq<PathSegment>>) -> bool {
    forall|i: int| 0 <= i < blocks.len() ==> is_closed_block(#[trigger] blocks[i])
}

/// Scanning a concatenation of closed blocks from a boundary state
/// finishes exactly one subpath per block.
proof fn lemma_split_blocks_from(st: SplitState, blocks: Seq<Seq<PathSegment>>)
    requires
        st.cur.len() == 0,
        all_closed_blocks(blocks),
    ensures
        split_run_from(st, blocks.flatten(), blocks.flatten().len() as int).cur.len() == 0,
        split_run_from(st, blocks.flatten(), blocks.flatten().len() as int).done.len()
            == st.done.len() + blocks.len(),
    decreases blocks.len(),
{
    if blocks.len() == 0 {
    } else {
        let first = blocks.first();
        let rest = blocks.drop_first();
        assert(blocks.flatten() == first + rest.flatten());
        lemma_split_one_block(st, first);
        let st1 = split_run_from(st, first, first.len() as int);
        assert(all_closed_blocks(rest)) by {
            assert(forall|i: int|
                0 <= i < rest.len() ==> rest[i] == #[trigger] blocks[i + 1]);
        }
        lemma_split_blocks_from(st1, rest);
        lemma_split_append(st, first, rest.flatten(), rest.flatten().len() as int);
        assert(blocks.flatten().len() == first.len() + rest.flatten().len());
    }
}

/// Law: a segment list made of `N` ClosePath-terminated subpath blocks
/// splits into exactly `N` non-empty subpaths.
pub proof fn lemma_split_closed_blocks(blocks: Seq<Seq<PathSegment>>)
    requires
        all_closed_blocks(blocks),
    ensures
        spec_split(blocks.flatten()).len() == blocks.len(),
{
    lemma_split_blocks_from(split_init(), blocks);
}

/// Law: a non-empty segment list whose only MoveTo (if any) is the
/// initial one, whose only ClosePath (if any) is the final segment, and
/// which holds at least one drawing segment, splits into exactly one
/// subpath.  An interior ClosePath would start a further subpath:
/// a list such as a LineTo, a ClosePath and another LineTo gives two.
pub proof fn lemma_split_single(segs: Seq<PathSegment>)
    requires
        segs.len() > 0,
        seg_is_move(segs[0]) ==> segs.len() > 1,
        forall|j: int| 1 <= j < segs.len() ==> !seg_is_move(#[trigger] segs[j]),
        forall|j: int| 0 <= j < segs.len() - 1 ==> #[trigger] segs[j] != PathSegment::ClosePath,
    ensures
        spec_split(segs).len() == 1,
{
    let n = segs.len() as int;
    let lo: int = if seg_is_move(segs[0]) {
        1
    } else {
        0
    };
    let st0 = split_run_from(split_init(), segs, lo);
    assert(st0.cur.len() == 0 && st0.done.len() == 0) by {
        reveal_with_fuel(split_run_from, 3);
    }
    if segs.last() == PathSegment::ClosePath {
        lemma_split_drawing_range(split_init(), segs, lo, n - 1);
        let st2 = split_run_from(split_init(), segs, n - 1);
        assert(split_run_from(split_init(), segs, n) == split_step(st2, segs[n - 1]));
        assert(split_run_from(split_init(), segs, n).done.len() == 1);
        assert(split_run_from(split_init(), segs, n).cur.len() == 0);
    } else {
        lemma_split_drawing_range(split_init(), segs, lo, n);
        let stn = split_run_from(split_init(), segs, n);
        assert(stn.done.len() == 0);
        assert(stn.cur == st0.cur + segs.subrange(lo, n));
        assert(stn.cur.len() == n - lo);
        assert(n - lo >= 1);
    }
}

} // verus!
