//! Writing a track string.
//!
//! The writer gets the parts of a track with its numbers already in text
//! (fixed-point, as `{:.N}` prints them) and, for the time control points,
//! with their binary64 bit patterns, which decide whether the points are the
//! default ones and whether the short form applies.

use crate::flag::{spec_with_reference, with_reference};
use crate::number::{
    binary64_eq,
    bits_eq,
    decimal,
    push_decimal,
    spec_trim_fixed_point,
    trim_fixed_point,
    ONE_BITS,
    QUARTER_BITS,
    ZERO_BITS,
};
use crate::parse::no_movement;
use crate::text::{join, prefixed};
use vstd::prelude::*;

verus! {

/// A number as the writer needs it.
pub struct Number {
    /// The binary64 bit pattern of the number.
    pub bits: u64,
    /// The number printed with six digits after the point (`{:.6}`).
    pub fixed: String,
}

/// A time control point.
pub struct ControlPoint {
    pub coordinate: (Number, Number),
    pub handle_offset: (Number, Number),
}

/// The movement script of a track.
pub struct MovementText {
    /// The script's name.
    pub name: String,
    /// The script's parameters, each printed with six digits after the point.
    pub parameters: Vec<String>,
}

/// The parts of a track, ready to be written.
pub struct TrackText {
    /// The values, each printed with the track's precision.
    pub values: Vec<String>,
    /// The flag field; its reference bit is ignored and follows `reference`.
    pub flag: u32,
    /// The movement script; `None` for "no movement".
    pub movement: Option<MovementText>,
    /// The time control points.
    pub time_control_points: Option<Vec<ControlPoint>>,
    /// The reference expression.
    pub reference: Option<String>,
}

/// Whether the points are the two default ones, (0, 0) and (1, 1) with
/// handle offsets of one quarter, compared as binary64 values.
pub open spec fn is_default_points(pts: Seq<ControlPoint>) -> bool {
    &&& pts.len() == 2
    &&& binary64_eq(pts[0].coordinate.0.bits, ZERO_BITS)
    &&& binary64_eq(pts[0].coordinate.1.bits, ZERO_BITS)
    &&& binary64_eq(pts[0].handle_offset.0.bits, QUARTER_BITS)
    &&& binary64_eq(pts[0].handle_offset.1.bits, QUARTER_BITS)
    &&& binary64_eq(pts[1].coordinate.0.bits, ONE_BITS)
    &&& binary64_eq(pts[1].coordinate.1.bits, ONE_BITS)
    &&& binary64_eq(pts[1].handle_offset.0.bits, QUARTER_BITS)
    &&& binary64_eq(pts[1].handle_offset.1.bits, QUARTER_BITS)
}

/// Whether the points can be written in the short form: two points, at
/// (0, 0) and at (1, 1).
pub open spec fn is_short_points(pts: Seq<ControlPoint>) -> bool {
    &&& pts.len() == 2
    &&& binary64_eq(pts[0].coordinate.0.bits, ZERO_BITS)
    &&& binary64_eq(pts[0].coordinate.1.bits, ZERO_BITS)
    &&& binary64_eq(pts[1].coordinate.0.bits, ONE_BITS)
    &&& binary64_eq(pts[1].coordinate.1.bits, ONE_BITS)
}

/// The number texts written for one point: the handle offset in the short
/// form, coordinate and handle offset otherwise.
pub open spec fn point_texts(p: ControlPoint, short: bool) -> Seq<Seq<char>> {
    if short {
        seq![spec_trim_fixed_point(p.handle_offset.0.fixed@), spec_trim_fixed_point(p.handle_offset.1.fixed@)]
    } else {
        seq![
            spec_trim_fixed_point(p.coordinate.0.fixed@),
            spec_trim_fixed_point(p.coordinate.1.fixed@),
            spec_trim_fixed_point(p.handle_offset.0.fixed@),
            spec_trim_fixed_point(p.handle_offset.1.fixed@),
        ]
    }
}

/// The number texts written for the points, in order.
pub open spec fn points_texts(pts: Seq<ControlPoint>, short: bool) -> Seq<Seq<char>>
    decreases pts.len(),
{
    if pts.len() == 0 {
        Seq::empty()
    } else {
        points_texts(pts.drop_last(), short) + point_texts(pts.last(), short)
    }
}

/// The section of the parameters, if one is written.
pub open spec fn parameter_part(t: TrackText) -> Seq<Seq<char>> {
    match t.movement {
        Some(m) => if m.parameters.len() > 0 {
            seq![join(m.parameters.deep_view().map_values(|p: Seq<char>| spec_trim_fixed_point(p)), ',')]
        } else {
            Seq::empty()
        },
        None => Seq::empty(),
    }
}

/// The section of the time control points, if one is written.
pub open spec fn time_control_part(t: TrackText) -> Seq<Seq<char>> {
    match t.time_control_points {
        Some(pts) => if is_default_points(pts@) {
            Seq::empty()
        } else {
            seq![join(points_texts(pts@, is_short_points(pts@)), ',')]
        },
        None => Seq::empty(),
    }
}

/// The section of the reference expression, if one is written.
pub open spec fn reference_part(t: TrackText) -> Seq<Seq<char>> {
    match t.reference {
        Some(r) => seq![r@],
        None => Seq::empty(),
    }
}

/// The sections written after the first, in order.
pub open spec fn trailing_sections(t: TrackText) -> Seq<Seq<char>> {
    reference_part(t) + parameter_part(t) + time_control_part(t)
}

/// Whether the track is written as its values alone: one value and nothing
/// else; the flag field counts as empty when its only bit is the reference
/// bit, which the writer takes from the reference expression.
pub open spec fn is_bare(t: TrackText) -> bool {
    &&& t.movement is None
    &&& t.values.len() == 1
    &&& spec_with_reference(t.flag, t.reference is Some) == 0
    &&& t.time_control_points is None
    &&& t.reference is None
}

/// The name written for the movement script.
pub open spec fn movement_name(t: TrackText) -> Seq<char> {
    match t.movement {
        Some(m) => m.name@,
        None => no_movement(),
    }
}

/// The text of the track: the values joined with `,`; unless the track is
/// bare, then `,`, the movement name, `,`, the flag field with the reference
/// bit set exactly when there is a reference, and the trailing sections,
/// each after a `|`.
pub open spec fn spec_render(t: TrackText) -> Seq<char> {
    let values = join(t.values.deep_view(), ',');
    if is_bare(t) {
        values
    } else {
        values.push(',') + movement_name(t).push(',') + decimal(
            spec_with_reference(t.flag, t.reference is Some) as nat,
        ) + prefixed(trailing_sections(t), '|')
    }
}

fn comma() -> (s: &'static str)
    ensures
        s@ == seq![','],
{
    proof {
        reveal_strlit(",");
    }
    ","
}

fn bar() -> (s: &'static str)
    ensures
        s@ == seq!['|'],
{
    proof {
        reveal_strlit("|");
    }
    "|"
}

/// Appends the parts to `out`, with `,` between neighbours.
fn push_joined(out: &mut String, parts: &Vec<String>)
    ensures
        final(out)@ == old(out)@ + join(parts.deep_view(), ','),
{
    let ghost start = out@;
    let n = parts.len();
    let mut i: usize = 0;
    proof {
        assert(parts.deep_view().take(0) =~= Seq::<Seq<char>>::empty());
        assert(out@ =~= start + join(parts.deep_view().take(0), ','));
    }
    while i < n
        invariant
            n == parts.len(),
            i <= n,
            out@ == start + join(parts.deep_view().take(i as int), ','),
        decreases n - i,
    {
        let ghost before = out@;
        if i > 0 {
            out.append(comma());
        }
        out.append(parts[i].as_str());
        proof {
            let t = parts.deep_view().take(i + 1);
            assert(t.drop_last() =~= parts.deep_view().take(i as int));
            assert(t.last() == parts[i as int]@);
            if i == 0 {
                assert(out@ =~= start + join(t, ','));
            } else {
                assert(out@ =~= start + join(t, ','));
            }
        }
        i += 1;
    }
    proof {
        assert(parts.deep_view().take(n as int) =~= parts.deep_view());
    }
}

/// The parameters, each in its shortest text.
fn trimmed_texts(params: &Vec<String>) -> (r: Vec<String>)
    ensures
        r.deep_view() == params.deep_view().map_values(|p: Seq<char>| spec_trim_fixed_point(p)),
{
    let mut r: Vec<String> = Vec::new();
    let n = params.len();
    let mut i: usize = 0;
    while i < n
        invariant
            n == params.len(),
            i <= n,
            r.deep_view() =~= params.deep_view().take(i as int).map_values(
                |p: Seq<char>| spec_trim_fixed_point(p),
            ),
        decreases n - i,
    {
        let ghost before = r.deep_view();
        let t = trim_fixed_point(params[i].as_str());
        r.push(t);
        proof {
            assert(r.deep_view() =~= before.push(t@));
            assert(params.deep_view().take(i + 1).map_values(
                |p: Seq<char>| spec_trim_fixed_point(p),
            ) =~= params.deep_view().take(i as int).map_values(
                |p: Seq<char>| spec_trim_fixed_point(p),
            ).push(t@));
        }
        i += 1;
    }
    proof {
        assert(params.deep_view().take(n as int) =~= params.deep_view());
    }
    r
}

fn is_default(pts: &Vec<ControlPoint>) -> (r: bool)
    ensures
        r == is_default_points(pts@),
{
    pts.len() == 2 && bits_eq(pts[0].coordinate.0.bits, ZERO_BITS) && bits_eq(
        pts[0].coordinate.1.bits,
        ZERO_BITS,
    ) && bits_eq(pts[0].handle_offset.0.bits, QUARTER_BITS) && bits_eq(
        pts[0].handle_offset.1.bits,
        QUARTER_BITS,
    ) && bits_eq(pts[1].coordinate.0.bits, ONE_BITS) && bits_eq(pts[1].coordinate.1.bits, ONE_BITS)
        && bits_eq(pts[1].handle_offset.0.bits, QUARTER_BITS) && bits_eq(
        pts[1].handle_offset.1.bits,
        QUARTER_BITS,
    )
}

fn is_short(pts: &Vec<ControlPoint>) -> (r: bool)
    ensures
        r == is_short_points(pts@),
{
    pts.len() == 2 && bits_eq(pts[0].coordinate.0.bits, ZERO_BITS) && bits_eq(
        pts[0].coordinate.1.bits,
        ZERO_BITS,
    ) && bits_eq(pts[1].coordinate.0.bits, ONE_BITS) && bits_eq(pts[1].coordinate.1.bits, ONE_BITS)
}

/// The number texts of the points, in order.
fn control_point_texts(pts: &Vec<ControlPoint>, short: bool) -> (r: Vec<String>)
    ensures
        r.deep_view() == points_texts(pts@, short),
{
    let mut r: Vec<String> = Vec::new();
    let n = pts.len();
    let mut i: usize = 0;
    proof {
        assert(pts@.take(0) =~= Seq::<ControlPoint>::empty());
    }
    while i < n
        invariant
            n == pts.len(),
            i <= n,
            r.deep_view() =~= points_texts(pts@.take(i as int), short),
        decreases n - i,
    {
        let ghost before = r.deep_view();
        let p = &pts[i];
        if !short {
            let t = trim_fixed_point(p.coordinate.0.fixed.as_str());
            r.push(t);
            let t = trim_fixed_point(p.coordinate.1.fixed.as_str());
            r.push(t);
        }
        let t = trim_fixed_point(p.handle_offset.0.fixed.as_str());
        r.push(t);
        let t = trim_fixed_point(p.handle_offset.1.fixed.as_str());
        r.push(t);
        proof {
            assert(pts@.take(i + 1).drop_last() =~= pts@.take(i as int));
            assert(r.deep_view() =~= before + point_texts(pts@[i as int], short));
        }
        i += 1;
    }
    proof {
        assert(pts@.take(n as int) =~= pts@);
    }
    r
}

/// The parts joined with `,`.
fn joined(parts: &Vec<String>) -> (s: String)
    ensures
        s@ == join(parts.deep_view(), ','),
{
    let mut s = String::new();
    push_joined(&mut s, parts);
    proof {
        assert(s@ =~= join(parts.deep_view(), ','));
    }
    s
}

/// Appends each part to `out`, each after a `|`.
fn push_prefixed(out: &mut String, parts: &Vec<String>)
    ensures
        final(out)@ == old(out)@ + prefixed(parts.deep_view(), '|'),
{
    let ghost start = out@;
    let n = parts.len();
    let mut i: usize = 0;
    proof {
        assert(parts.deep_view().take(0) =~= Seq::<Seq<char>>::empty());
        assert(out@ =~= start + prefixed(parts.deep_view().take(0), '|'));
    }
    while i < n
        invariant
            n == parts.len(),
            i <= n,
            out@ == start + prefixed(parts.deep_view().take(i as int), '|'),
        decreases n - i,
    {
        out.append(bar());
        out.append(parts[i].as_str());
        proof {
            let t = parts.deep_view().take(i + 1);
            assert(t.drop_last() =~= parts.deep_view().take(i as int));
            assert(t.last() == parts[i as int]@);
            assert(out@ =~= start + prefixed(t, '|'));
        }
        i += 1;
    }
    proof {
        assert(parts.deep_view().take(n as int) =~= parts.deep_view());
    }
}

/// The sections written after the first.
fn trailing(track: &TrackText) -> (v: Vec<String>)
    ensures
        v.deep_view() == trailing_sections(*track),
{
    let mut v: Vec<String> = Vec::new();
    match &track.reference {
        Some(r) => {
            v.push(r.clone());
        },
        None => {},
    }
    proof {
        assert(v.deep_view() =~= reference_part(*track));
    }
    let ghost v1 = v.deep_view();
    match &track.movement {
        Some(m) => {
            if m.parameters.len() > 0 {
                let texts = trimmed_texts(&m.parameters);
                v.push(joined(&texts));
            }
        },
        None => {},
    }
    proof {
        assert(v.deep_view() =~= v1 + parameter_part(*track));
    }
    let ghost v2 = v.deep_view();
    match &track.time_control_points {
        Some(pts) => {
            if !is_default(pts) {
                let short = is_short(pts);
                let texts = control_point_texts(pts, short);
                v.push(joined(&texts));
            }
        },
        None => {},
    }
    proof {
        assert(v.deep_view() =~= v2 + time_control_part(*track));
    }
    v
}

/// Writes the track text of `track` (the `Display` form of a track).
pub fn render(track: &TrackText) -> (s: String)
    ensures
        s@ == spec_render(*track),
{
    let mut out = String::new();
    push_joined(&mut out, &track.values);
    let flag = with_reference(track.flag, track.reference.is_some());
    if track.movement.is_none() && track.values.len() == 1 && flag == 0
        && track.time_control_points.is_none() && track.reference.is_none() {
        return out;
    }
    out.append(comma());
    match &track.movement {
        Some(m) => out.append(m.name.as_str()),
        None => {
            let none_name = "移動無し";
            proof {
                reveal_strlit("移動無し");
            }
            out.append(none_name);
        },
    }
    out.append(comma());
    push_decimal(&mut out, flag);
    let sections = trailing(track);
    push_prefixed(&mut out, &sections);
    proof {
        assert(out@ =~= spec_render(*track));
    }
    out
}

/// The number texts written for time control points, by index: in the
/// short form, point `i` gives fields `2i` and `2i+1`, the shortest texts of
/// its handle offset x and y; in the full form, point `i` gives fields `4i`
/// to `4i+3`, its coordinate x and y, then its handle offset x and y.
pub proof fn law_points_texts_by_index(pts: Seq<ControlPoint>, short: bool)
    ensures
        points_texts(pts, short).len() == (if short { 2int } else { 4int }) * pts.len(),
        short ==> forall|i: int|
            #![trigger pts[i]]
            0 <= i < pts.len() ==> points_texts(pts, short)[2 * i] == spec_trim_fixed_point(
                pts[i].handle_offset.0.fixed@,
            ) && points_texts(pts, short)[2 * i + 1] == spec_trim_fixed_point(
                pts[i].handle_offset.1.fixed@,
            ),
        !short ==> forall|i: int|
            #![trigger pts[i]]
            0 <= i < pts.len() ==> {
                &&& points_texts(pts, short)[4 * i] == spec_trim_fixed_point(
                    pts[i].coordinate.0.fixed@,
                )
                &&& points_texts(pts, short)[4 * i + 1] == spec_trim_fixed_point(
                    pts[i].coordinate.1.fixed@,
                )
                &&& points_texts(pts, short)[4 * i + 2] == spec_trim_fixed_point(
                    pts[i].handle_offset.0.fixed@,
                )
                &&& points_texts(pts, short)[4 * i + 3] == spec_trim_fixed_point(
                    pts[i].handle_offset.1.fixed@,
                )
            },
    decreases pts.len(),
{
    if pts.len() > 0 {
        let p1 = pts.drop_last();
        law_points_texts_by_index(p1, short);
        let n = pts.len() - 1;
        let w: int = if short { 2 } else { 4 };
        let head = points_texts(p1, short);
        let last = point_texts(pts.last(), short);
        assert(points_texts(pts, short) == head + last);
        assert forall|i: int| #![trigger pts[i]] 0 <= i < pts.len() implies {
            &&& short ==> points_texts(pts, short)[2 * i] == spec_trim_fixed_point(
                pts[i].handle_offset.0.fixed@,
            ) && points_texts(pts, short)[2 * i + 1] == spec_trim_fixed_point(
                pts[i].handle_offset.1.fixed@,
            )
            &&& !short ==> {
                &&& points_texts(pts, short)[4 * i] == spec_trim_fixed_point(
                    pts[i].coordinate.0.fixed@,
                )
                &&& points_texts(pts, short)[4 * i + 1] == spec_trim_fixed_point(
                    pts[i].coordinate.1.fixed@,
                )
                &&& points_texts(pts, short)[4 * i + 2] == spec_trim_fixed_point(
                    pts[i].handle_offset.0.fixed@,
                )
                &&& points_texts(pts, short)[4 * i + 3] == spec_trim_fixed_point(
                    pts[i].handle_offset.1.fixed@,
                )
            }
        } by {
            if i < n {
                assert(pts[i] == p1[i]);
            } else {
                assert(head.len() == w * n);
            }
        }
    }
}

/// What is written for the time control points: nothing without points;
/// nothing when there are two points whose eight numbers equal (as binary64
/// values) those of the defaults, (0, 0) and (1, 1) with handle offsets of
/// one quarter; otherwise one section, the short form when there are two
/// points at (0, 0) and (1, 1), the full form else.
pub proof fn law_time_control_section(t: TrackText)
    ensures
        t.time_control_points is None ==> time_control_part(t) == Seq::<Seq<char>>::empty(),
        t.time_control_points matches Some(pts) ==> ({
            let p = pts@;
            let at_corners = p.len() == 2 && binary64_eq(p[0].coordinate.0.bits, 0u64)
                && binary64_eq(p[0].coordinate.1.bits, 0u64) && binary64_eq(
                p[1].coordinate.0.bits,
                0x3ff0_0000_0000_0000u64,
            ) && binary64_eq(p[1].coordinate.1.bits, 0x3ff0_0000_0000_0000u64);
            let defaults = at_corners && binary64_eq(
                p[0].handle_offset.0.bits,
                0x3fd0_0000_0000_0000u64,
            ) && binary64_eq(p[0].handle_offset.1.bits, 0x3fd0_0000_0000_0000u64)
                && binary64_eq(p[1].handle_offset.0.bits, 0x3fd0_0000_0000_0000u64)
                && binary64_eq(p[1].handle_offset.1.bits, 0x3fd0_0000_0000_0000u64);
            &&& defaults ==> time_control_part(t) == Seq::<Seq<char>>::empty()
            &&& !defaults ==> time_control_part(t) == seq![join(points_texts(p, at_corners), ',')]
        }),
{
}

} // verus!
