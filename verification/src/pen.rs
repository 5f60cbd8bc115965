//! Rendering of paints, strokes and fills as Asymptote pen expressions.
//!
//! A pen is a base paint term followed by modifier terms; every modifier
//! whose value equals the documented default is omitted.  Gradient and
//! pattern paints are not implemented and abort the conversion.
use vstd::prelude::*;
use vstd::string::StringExecFns;

use crate::asy::{dec_fuzzy_eq, fuzzy_eq_const, spec_format, format_dec, Dec};
use crate::color::{color_text, Color};
use crate::asy::Asy;
use crate::{AsyError, AsyOptions};

verus! {

/// A paint: only plain colors are implemented.
#[derive(Clone, Copy, PartialEq, Eq, Structural, Debug)]
pub enum Paint {
    Color(Color),
    LinearGradient,
    RadialGradient,
    Pattern,
}

/// The shape of a stroked line's endpoints.
#[derive(Clone, Copy, PartialEq, Eq, Structural, Debug)]
pub enum LineCap {
    Butt,
    Round,
    Square,
}

/// The shape of a stroked line's corners.
#[derive(Clone, Copy, PartialEq, Eq, Structural, Debug)]
pub enum LineJoin {
    Miter,
    Round,
    Bevel,
}

/// The rule deciding which regions a fill covers.
#[derive(Clone, Copy, PartialEq, Eq, Structural, Debug)]
pub enum FillRule {
    NonZero,
    EvenOdd,
}

/// A stroke descriptor.
#[derive(Clone, Debug)]
pub struct Stroke {
    pub paint: Paint,
    pub dasharray: Option<Vec<Dec>>,
    pub dashoffset: Dec,
    pub miterlimit: Dec,
    pub opacity: Dec,
    pub width: Dec,
    pub linecap: LineCap,
    pub linejoin: LineJoin,
}

/// A fill descriptor.
#[derive(Clone, Debug)]
pub struct Fill {
    pub paint: Paint,
    pub opacity: Dec,
    pub rule: FillRule,
}

/// The fatal error a paint produces, if any: gradients and patterns are
/// not implemented.
pub open spec fn paint_err(p: Paint) -> Option<AsyError> {
    match p {
        Paint::Color(_) => None,
        Paint::LinearGradient => Some(AsyError::LinearGradientPaint),
        Paint::RadialGradient => Some(AsyError::RadialGradientPaint),
        Paint::Pattern => Some(AsyError::PatternPaint),
    }
}

/// The base paint term of a pen (meaningful only for color paints).
pub open spec fn paint_text(p: Paint) -> Seq<char> {
    match p {
        Paint::Color(c) => color_text(c),
        _ => Seq::empty(),
    }
}

impl Paint {
    /// Renders the base paint term, or reports the fatal error for an
    /// unimplemented paint kind.
    pub fn transpile(&self, opt: &AsyOptions) -> (r: Result<String, AsyError>)
        ensures
            match r {
                Ok(s) => paint_err(*self) is None && s@ == paint_text(*self),
                Err(e) => paint_err(*self) == Some(e),
            },
    {
        match self {
            Paint::Color(c) => Ok(c.transpile(opt)),
            Paint::LinearGradient => Err(AsyError::LinearGradientPaint),
            Paint::RadialGradient => Err(AsyError::RadialGradientPaint),
            Paint::Pattern => Err(AsyError::PatternPaint),
        }
    }
}

/// The modifier term for a line cap; the round cap is Asymptote's
/// default and is omitted.
pub open spec fn cap_text(c: LineCap) -> Seq<char> {
    match c {
        LineCap::Butt => " + squarecap"@,
        LineCap::Round => Seq::empty(),
        LineCap::Square => " + extendcap"@,
    }
}

/// The modifier term for a line join; the round join is Asymptote's
/// default and is omitted.
pub open spec fn join_text(j: LineJoin) -> Seq<char> {
    match j {
        LineJoin::Miter => " + miterjoin"@,
        LineJoin::Round => Seq::empty(),
        LineJoin::Bevel => " + beveljoin"@,
    }
}

/// The text of the dash entries, each formatted value followed by a
/// comma and a space.
pub open spec fn dash_entries_text(ds: Seq<Dec>, opt: AsyOptions) -> Seq<char>
    decreases ds.len(),
{
    if ds.len() == 0 {
        Seq::empty()
    } else {
        dash_entries_text(ds.drop_last(), opt) + spec_format(ds.last(), opt.precision) + ", "@
    }
}

/// The linetype modifier for a dash pattern, omitted when there is no
/// dash array; a dash offset is appended only when it differs from zero.
pub open spec fn dash_text(s: Stroke, opt: AsyOptions) -> Seq<char> {
    match s.dasharray {
        Some(ds) => " + linetype(new real[]{"@ + dash_entries_text(ds@, opt) + "}"@ + (if !dec_fuzzy_eq(
            s.dashoffset,
            0,
        ) {
            ", "@ + spec_format(s.dashoffset, opt.precision)
        } else {
            Seq::empty()
        }) + ")"@,
        None => Seq::empty(),
    }
}

/// The whole pen expression for a stroke: the paint, then every modifier
/// whose value is not the documented default (dash pattern absent, miter
/// limit 10, opacity 1, width 1, round cap, round join).
pub open spec fn stroke_text(s: Stroke, opt: AsyOptions) -> Seq<char> {
    paint_text(s.paint) + dash_text(s, opt) + (if !dec_fuzzy_eq(s.miterlimit, 10) {
        " + miterlimit("@ + spec_format(s.miterlimit, opt.precision) + ")"@
    } else {
        Seq::empty()
    }) + (if !dec_fuzzy_eq(s.opacity, 1) {
        " + opacity("@ + spec_format(s.opacity, opt.precision) + ")"@
    } else {
        Seq::empty()
    }) + (if !dec_fuzzy_eq(s.width, 1) {
        " + linewidth("@ + spec_format(s.width, opt.precision) + ")"@
    } else {
        Seq::empty()
    }) + cap_text(s.linecap) + join_text(s.linejoin)
}

/// The whole pen expression for a fill: the paint, an opacity modifier
/// when it is not 1, and the even-odd modifier when the rule is not the
/// non-zero default.
pub open spec fn fill_text(f: Fill, opt: AsyOptions) -> Seq<char> {
    paint_text(f.paint) + (if !dec_fuzzy_eq(f.opacity, 1) {
        " + opacity("@ + spec_format(f.opacity, opt.precision) + ")"@
    } else {
        Seq::empty()
    }) + (match f.rule {
        FillRule::NonZero => Seq::<char>::empty(),
        FillRule::EvenOdd => " + evenodd"@,
    })
}

impl Stroke {
    /// All numeric attributes are well-formed decimals.
    pub open spec fn wf(&self) -> bool {
        &&& self.dashoffset.wf()
        &&& self.miterlimit.wf()
        &&& self.opacity.wf()
        &&& self.width.wf()
        &&& match self.dasharray {
            Some(ds) => forall|i: int| 0 <= i < ds@.len() ==> ds@[i].wf(),
            None => true,
        }
    }

    /// Appends the linetype modifier for the dash pattern, if any.
    fn push_dash(&self, s: &mut String, opt: &AsyOptions)
        requires
            self.wf(),
        ensures
            final(s)@ == old(s)@ + dash_text(*self, *opt),
    {
        if let Some(ds) = &self.dasharray {
            s.append(" + linetype(new real[]{");
            let mut i: usize = 0;
            while i < ds.len()
                invariant
                    i <= ds.len(),
                    forall|j: int| 0 <= j < ds@.len() ==> ds@[j].wf(),
                    s@ == old(s)@ + " + linetype(new real[]{"@ + dash_entries_text(
                        ds@.take(i as int),
                        *opt,
                    ),
                decreases ds.len() - i,
            {
                let t = format_dec(&ds[i], opt.precision);
                s.append(t.as_str());
                s.append(", ");
                proof {
                    assert(ds@.take(i + 1 as int).drop_last() =~= ds@.take(i as int));
                    assert(ds@.take(i + 1 as int).last() == ds@[i as int]);
                    assert(s@ =~= old(s)@ + " + linetype(new real[]{"@ + dash_entries_text(
                        ds@.take(i + 1 as int),
                        *opt,
                    ));
                }
                i = i + 1;
            }
            proof {
                assert(ds@.take(ds@.len() as int) =~= ds@);
            }
            s.append("}");
            if !fuzzy_eq_const(&self.dashoffset, 0) {
                s.append(", ");
                let t = format_dec(&self.dashoffset, opt.precision);
                s.append(t.as_str());
            }
            s.append(")");
            proof {
                assert(final(s)@ =~= old(s)@ + dash_text(*self, *opt));
            }
        }
    }

    /// Renders the pen expression, or reports the fatal error for an
    /// unimplemented paint kind.
    pub fn transpile(&self, opt: &AsyOptions) -> (r: Result<String, AsyError>)
        requires
            self.wf(),
        ensures
            match r {
                Ok(s) => paint_err(self.paint) is None && s@ == stroke_text(*self, *opt),
                Err(e) => paint_err(self.paint) == Some(e),
            },
    {
        let mut s = match self.paint.transpile(opt) {
            Ok(s) => s,
            Err(e) => { return Err(e) },
        };
        self.push_dash(&mut s, opt);
        let ghost base = s@;
        if !fuzzy_eq_const(&self.miterlimit, 10) {
            s.append(" + miterlimit(");
            let t = format_dec(&self.miterlimit, opt.precision);
            s.append(t.as_str());
            s.append(")");
        }
        proof {
            assert(s@ =~= base + (if !dec_fuzzy_eq(self.miterlimit, 10) {
                " + miterlimit("@ + spec_format(self.miterlimit, opt.precision) + ")"@
            } else {
                Seq::empty()
            }));
        }
        let ghost base = s@;
        if !fuzzy_eq_const(&self.opacity, 1) {
            s.append(" + opacity(");
            let t = format_dec(&self.opacity, opt.precision);
            s.append(t.as_str());
            s.append(")");
        }
        proof {
            assert(s@ =~= base + (if !dec_fuzzy_eq(self.opacity, 1) {
                " + opacity("@ + spec_format(self.opacity, opt.precision) + ")"@
            } else {
                Seq::empty()
            }));
        }
        let ghost base = s@;
        if !fuzzy_eq_const(&self.width, 1) {
            s.append(" + linewidth(");
            let t = format_dec(&self.width, opt.precision);
            s.append(t.as_str());
            s.append(")");
        }
        proof {
            assert(s@ =~= base + (if !dec_fuzzy_eq(self.width, 1) {
                " + linewidth("@ + spec_format(self.width, opt.precision) + ")"@
            } else {
                Seq::empty()
            }));
        }
        match self.linecap {
            LineCap::Butt => s.append(" + squarecap"),
            LineCap::Round => (),
            LineCap::Square => s.append(" + extendcap"),
        }
        match self.linejoin {
            LineJoin::Miter => s.append(" + miterjoin"),
            LineJoin::Round => (),
            LineJoin::Bevel => s.append(" + beveljoin"),
        }
        proof {
            assert(s@ =~= stroke_text(*self, *opt));
        }
        Ok(s)
    }
}

impl Fill {
    /// The numeric attribute is a well-formed decimal.
    pub open spec fn wf(&self) -> bool {
        self.opacity.wf()
    }

    /// Renders the pen expression, or reports the fatal error for an
    /// unimplemented paint kind.
    pub fn transpile(&self, opt: &AsyOptions) -> (r: Result<String, AsyError>)
        requires
            self.wf(),
        ensures
            match r {
                Ok(s) => paint_err(self.paint) is None && s@ == fill_text(*self, *opt),
                Err(e) => paint_err(self.paint) == Some(e),
            },
    {
        let mut s = match self.paint.transpile(opt) {
            Ok(s) => s,
            Err(e) => { return Err(e) },
        };
        if !fuzzy_eq_const(&self.opacity, 1) {
            s.append(" + opacity(");
            let t = format_dec(&self.opacity, opt.precision);
            s.append(t.as_str());
            s.append(")");
        }
        match self.rule {
            FillRule::NonZero => (),
            FillRule::EvenOdd => s.append(" + evenodd"),
        }
        proof {
            assert(s@ =~= fill_text(*self, *opt));
        }
        Ok(s)
    }
}

/// Law: a stroke with every attribute at its default value (no dash
/// pattern, miter limit 10, opacity 1, width 1, round cap, round join)
/// renders as the bare paint term, with no modifier suffixes.
pub proof fn lemma_stroke_default_omission(s: Stroke, opt: AsyOptions)
    requires
        s.dasharray is None,
        dec_fuzzy_eq(s.miterlimit, 10),
        dec_fuzzy_eq(s.opacity, 1),
        dec_fuzzy_eq(s.width, 1),
        s.linecap == LineCap::Round,
        s.linejoin == LineJoin::Round,
    ensures
        stroke_text(s, opt) == paint_text(s.paint),
{
    assert(stroke_text(s, opt) =~= paint_text(s.paint));
}

/// Law: a fill with every attribute at its default value (opacity 1,
/// non-zero fill rule) renders as the bare paint term.
pub proof fn lemma_fill_default_omission(f: Fill, opt: AsyOptions)
    requires
        dec_fuzzy_eq(f.opacity, 1),
        f.rule == FillRule::NonZero,
    ensures
        fill_text(f, opt) == paint_text(f.paint),
{
    assert(fill_text(f, opt) =~= paint_text(f.paint));
}

} // verus!
