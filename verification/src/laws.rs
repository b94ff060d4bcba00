//! What holds of reading and writing together.

use crate::flag::{has_reference, lemma_with_reference_unchanged, spec_with_reference, REFERENCE};
use crate::number::{
    binary64_eq,
    decimal,
    is_nan_bits,
    lemma_decimal_digits,
    lemma_parse_decimal,
    spec_trim_fixed_point,
    ONE_BITS,
    QUARTER_BITS,
    ZERO_BITS,
};
use crate::parse::{
    chunk_points,
    default_points,
    handle_points,
    no_movement,
    parameter_sections,
    reference_sections,
    spec_parse_head,
    spec_parse_tail,
    ComponentModel,
    HeadModel,
    PointModel,
    TailModel,
    TrackInfo,
};
use crate::render::{
    is_bare,
    is_default_points,
    is_short_points,
    parameter_part,
    point_texts,
    points_texts,
    reference_part,
    spec_render,
    time_control_part,
    trailing_sections,
    ControlPoint,
    Number,
    TrackText,
};
use crate::text::{
    join,
    lacks,
    lemma_join_lacks,
    lemma_join_prefixed,
    lemma_join_split,
    lemma_join_take,
    lemma_split_join,
    lemma_split_nonempty,
    lemma_split_single,
    spec_precision,
    split_on,
};
use vstd::prelude::*;

verus! {

/// The flag field of the text `s`: the last field of its first section.
pub open spec fn flag_field(s: Seq<char>) -> Seq<char> {
    split_on(split_on(s, '|')[0], ',').last()
}

/// The position of the time control section among the sections after the
/// first.
pub open spec fn time_control_position(head: HeadModel, info: Option<TrackInfo>) -> int {
    reference_sections(head) + parameter_sections(head, info)
}

/// How many sections the time control takes (0 or 1).
pub open spec fn time_control_sections(head: HeadModel, info: Option<TrackInfo>) -> int {
    if (info matches Some(i) && i.timecontrol) && time_control_position(head, info)
        < head.sections.len() {
        1
    } else {
        0
    }
}

/// The number `n` is written as the component `c` was read: a text prints
/// back as itself, a fixed value has its bits.
pub open spec fn component_written(n: Number, c: ComponentModel) -> bool {
    match c {
        ComponentModel::Text(tok) => spec_trim_fixed_point(n.fixed@) == tok,
        ComponentModel::Bits(b) => n.bits == b,
    }
}

/// The point `p` is written as `m` was read.
pub open spec fn point_written(p: ControlPoint, m: PointModel) -> bool {
    &&& component_written(p.coordinate.0, m.coordinate.0)
    &&& component_written(p.coordinate.1, m.coordinate.1)
    &&& component_written(p.handle_offset.0, m.handle_offset.0)
    &&& component_written(p.handle_offset.1, m.handle_offset.1)
}

/// The parts `t` are those of the track read from a text as `head` and
/// `tail` with `info`, each number printing back as the text it was read
/// from: the values as their texts, the parameters (which come from the
/// host) as their section, the time control points as their fields.
pub open spec fn writes_back(
    t: TrackText,
    head: HeadModel,
    tail: TailModel,
    info: Option<TrackInfo>,
) -> bool {
    &&& t.values.deep_view() == head.values
    &&& t.flag == head.flag
    &&& t.reference.deep_view() == tail.reference
    &&& match head.movement {
        None => t.movement is None,
        Some(name) => t.movement matches Some(m) && {
            &&& m.name@ == name
            &&& (m.parameters.len() > 0) == (info matches Some(i) && i.has_params)
            &&& m.parameters.len() > 0 ==> join(
                m.parameters.deep_view().map_values(|p: Seq<char>| spec_trim_fixed_point(p)),
                ',',
            ) == head.sections[reference_sections(head)]
        },
    }
    &&& match tail.time_control_points {
        None => t.time_control_points is None,
        Some(layout) => t.time_control_points matches Some(pts) && {
            &&& pts.len() == layout.len()
            &&& forall|i: int| 0 <= i < layout.len() ==> #[trigger] point_written(pts@[i], layout[i])
        },
    }
}

/// A time control section, if one was read, describes points that the
/// writer writes in the same form: not the default points, and, unless it
/// is the short form, not two points at (0, 0) and (1, 1).
pub open spec fn time_control_in_written_form(
    head: HeadModel,
    info: Option<TrackInfo>,
    t: TrackText,
) -> bool {
    time_control_sections(head, info) == 1 ==> (t.time_control_points matches Some(pts) && {
        &&& !is_default_points(pts@)
        &&& split_on(head.sections[time_control_position(head, info)], ',').len() != 4
            ==> !is_short_points(pts@)
    })
}

proof fn lemma_fixed_bits_are_numbers()
    ensures
        !is_nan_bits(ZERO_BITS),
        !is_nan_bits(ONE_BITS),
        !is_nan_bits(QUARTER_BITS),
        binary64_eq(ZERO_BITS, ZERO_BITS),
        binary64_eq(ONE_BITS, ONE_BITS),
        binary64_eq(QUARTER_BITS, QUARTER_BITS),
{
    assert(0u64 & 0x7ff0_0000_0000_0000u64 != 0x7ff0_0000_0000_0000u64) by (bit_vector);
    assert(0x3ff0_0000_0000_0000u64 & 0x7ff0_0000_0000_0000u64 != 0x7ff0_0000_0000_0000u64)
        by (bit_vector);
    assert(0x3fd0_0000_0000_0000u64 & 0x7ff0_0000_0000_0000u64 != 0x7ff0_0000_0000_0000u64)
        by (bit_vector);
}

/// Written in the full form, points read from the fields `parts` give the
/// fields back.
proof fn lemma_full_form_texts(pts: Seq<ControlPoint>, parts: Seq<Seq<char>>, k: int)
    requires
        parts.len() % 4 == 0,
        pts.len() == parts.len() / 4,
        0 <= k <= pts.len(),
        forall|i: int| 0 <= i < pts.len() ==> #[trigger] point_written(pts[i], chunk_points(parts)[i]),
    ensures
        points_texts(pts.take(k), false) == parts.take(4 * k),
    decreases k,
{
    if k == 0 {
        assert(pts.take(0) =~= Seq::<ControlPoint>::empty());
        assert(parts.take(0) =~= Seq::<Seq<char>>::empty());
    } else {
        lemma_full_form_texts(pts, parts, k - 1);
        assert(pts.take(k).drop_last() =~= pts.take(k - 1));
        assert(point_written(pts[k - 1], chunk_points(parts)[k - 1]));
        assert(parts.take(4 * k) =~= parts.take(4 * (k - 1)) + seq![
            parts[4 * (k - 1)],
            parts[4 * (k - 1) + 1],
            parts[4 * (k - 1) + 2],
            parts[4 * (k - 1) + 3],
        ]);
    }
}

/// Reading a track text and writing the track gives the text back, when the
/// text is in the form that the writer produces: its flag field is plain
/// decimal, it has no sections beyond those that were read, it is not a text
/// of one value with nothing else that the writer would write bare, and its
/// time control section (if any) describes points that are not the default
/// ones and, in the full form, not two points at (0, 0) and (1, 1); and when
/// every number prints back as the text it was read from.
pub proof fn law_read_then_write(
    s: Seq<char>,
    info: Option<TrackInfo>,
    head: HeadModel,
    tail: TailModel,
    t: TrackText,
)
    requires
        spec_parse_head(s, info is Some) == Some(head),
        spec_parse_tail(head, info) == Some(tail),
        writes_back(t, head, tail, info),
        is_bare(t) ==> info is None && split_on(s, '|').len() == 1,
        !(info is None && split_on(s, '|').len() == 1) ==> {
            &&& decimal(head.flag as nat) == flag_field(s)
            &&& head.sections.len() == time_control_position(head, info) + time_control_sections(
                head,
                info,
            )
        },
        time_control_in_written_form(head, info, t),
    ensures
        spec_render(t) == s,
{
    let splat = split_on(s, '|');
    lemma_join_split(s, '|');
    lemma_split_nonempty(s, '|');
    if info is None && splat.len() == 1 {
        assert(spec_with_reference(0, false) == 0) by {
            assert(0u32 & !8u32 == 0u32) by (bit_vector);
        }
        assert(t.values.deep_view() =~= seq![splat[0]]);
        assert(join(t.values.deep_view(), ',') == splat[0]);
        assert(splat.drop_last() =~= Seq::<Seq<char>>::empty());
        assert(s == splat[0]);
    } else {
        let first = split_on(splat[0], ',');
        let n = first.len() as int;
        lemma_join_split(splat[0], ',');
        lemma_join_take(first, ',', n - 2);
        lemma_join_take(first, ',', n - 1);
        assert(first.take(n) =~= first);
        lemma_with_reference_unchanged(head.flag);
        assert(spec_with_reference(t.flag, t.reference is Some) == head.flag);
        let secs = head.sections;
        let trailing = trailing_sections(t);
        assert(time_control_part(t) =~= secs.skip(time_control_position(head, info)))
            by {
            lemma_time_control_written(head, tail, info, t);
        }
        assert(trailing =~= secs);
        lemma_join_prefixed(splat, '|');
        assert(splat.skip(1) == secs);
        assert(spec_render(t) =~= s);
    }
}

/// The time control part that is written is the time control section read.
proof fn lemma_time_control_written(
    head: HeadModel,
    tail: TailModel,
    info: Option<TrackInfo>,
    t: TrackText,
)
    requires
        spec_parse_tail(head, info) == Some(tail),
        writes_back(t, head, tail, info),
        head.sections.len() == time_control_position(head, info) + time_control_sections(head, info),
        time_control_in_written_form(head, info, t),
    ensures
        time_control_part(t) == head.sections.skip(time_control_position(head, info)),
{
    let secs = head.sections;
    let pos = time_control_position(head, info);
    lemma_fixed_bits_are_numbers();
    if time_control_sections(head, info) == 1 {
        let sec = secs[pos];
        let parts = split_on(sec, ',');
        lemma_join_split(sec, ',');
        let pts = t.time_control_points->0@;
        if parts.len() == 4 {
            let layout = handle_points(parts);
            assert(tail.time_control_points == Some(layout));
            assert(point_written(pts[0], layout[0]));
            assert(point_written(pts[1], layout[1]));
            let p0 = point_texts(pts[0], true);
            let p1 = point_texts(pts[1], true);
            assert(p0 =~= seq![parts[0], parts[1]]);
            assert(p1 =~= seq![parts[2], parts[3]]);
            assert(pts.len() == 2);
            assert(pts.drop_last().drop_last() =~= Seq::<ControlPoint>::empty());
            assert(points_texts(pts.drop_last().drop_last(), true) =~= Seq::<Seq<char>>::empty());
            assert(pts.drop_last().last() == pts[0]);
            assert(points_texts(pts.drop_last(), true) =~= p0);
            assert(points_texts(pts, true) =~= p0 + p1);
            assert(is_short_points(pts));
            assert(points_texts(pts, true) =~= parts);
        } else {
            lemma_full_form_texts(pts, parts, pts.len() as int);
            assert(pts.take(pts.len() as int) =~= pts);
            assert(parts.take(4 * (pts.len() as int)) =~= parts);
        }
        assert(secs.skip(pos) =~= seq![sec]);
    } else {
        assert(secs.skip(pos) =~= Seq::<Seq<char>>::empty());
        if t.time_control_points is Some {
            let pts = t.time_control_points->0@;
            assert(point_written(pts[0], tail.time_control_points->0[0]));
            assert(point_written(pts[1], tail.time_control_points->0[1]));
            assert(is_default_points(pts));
        }
    }
}

/// The flag field that is written has the reference bit exactly when the
/// track has a reference expression, and the other bits of the track's flag.
pub proof fn law_written_reference_bit(t: TrackText)
    ensures
        has_reference(spec_with_reference(t.flag, t.reference is Some)) == (t.reference is Some),
        spec_with_reference(t.flag, t.reference is Some) & !REFERENCE == t.flag
            & !REFERENCE,
{
    let f = t.flag;
    assert((f | 8u32) & 8u32 == 8u32) by (bit_vector);
    assert((f & !8u32) & 8u32 != 8u32) by (bit_vector);
    assert((f | 8u32) & !8u32 == f & !8u32) by (bit_vector);
    assert((f & !8u32) & !8u32 == f & !8u32) by (bit_vector);
}

/// The host information under which a written track is read back: none
/// for a track written bare; otherwise the movement has parameters exactly
/// when the track's movement has some, and time control exactly when the
/// track has time control points.
pub open spec fn info_of(t: TrackText) -> Option<TrackInfo> {
    if is_bare(t) {
        None
    } else {
        Some(
            TrackInfo {
                has_params: t.movement matches Some(m) && m.parameters.len() > 0,
                timecontrol: t.time_control_points is Some,
            },
        )
    }
}

/// The number texts written for the time control points.
pub open spec fn written_point_texts(pts: Seq<ControlPoint>) -> Seq<Seq<char>> {
    points_texts(pts, is_short_points(pts))
}

/// The texts of the track can be told apart by a reader: there is a value;
/// the values hold no `|` (and, unless the track is written bare, no `,`; a
/// bare value is not empty); the movement name is not "no movement" and
/// holds neither `,` nor `|`; the sections written after the first hold no
/// `|`; and points that are not the default ones are two points in the
/// short form or at least two points, with number texts that hold no `,`.
pub open spec fn readable(t: TrackText) -> bool {
    &&& t.values.len() >= 1
    &&& forall|i: int| 0 <= i < t.values.len() ==> lacks(#[trigger] t.values@[i]@, '|')
    &&& is_bare(t) ==> t.values@[0]@.len() > 0
    &&& !is_bare(t) ==> forall|i: int| 0 <= i < t.values.len() ==> lacks(#[trigger] t.values@[i]@, ',')
    &&& t.movement matches Some(m) ==> (m.name@ != no_movement() && lacks(m.name@, ',') && lacks(
        m.name@,
        '|',
    ))
    &&& forall|i: int|
        0 <= i < trailing_sections(t).len() ==> lacks(#[trigger] trailing_sections(t)[i], '|')
    &&& t.time_control_points matches Some(pts) ==> (!is_default_points(pts@) ==> {
        &&& is_short_points(pts@) || pts.len() >= 2
        &&& forall|i: int|
            0 <= i < written_point_texts(pts@).len() ==> lacks(
                #[trigger] written_point_texts(pts@)[i],
                ',',
            )
    })
}

/// The first section that is read back from a written track.
pub open spec fn head_of(t: TrackText) -> HeadModel {
    HeadModel {
        values: t.values.deep_view(),
        precision: spec_precision(t.values@[0]@),
        flag: spec_with_reference(t.flag, t.reference is Some),
        movement: match t.movement {
            Some(m) => Some(m.name@),
            None => None,
        },
        sections: trailing_sections(t),
    }
}

/// The time control points read back from written points: the default
/// ones, the short form, or four fields per point.
pub open spec fn points_read(pts: Seq<ControlPoint>) -> Seq<PointModel> {
    if is_default_points(pts) {
        default_points()
    } else if is_short_points(pts) {
        handle_points(points_texts(pts, true))
    } else {
        chunk_points(points_texts(pts, false))
    }
}

/// The other sections that are read back from a written track.
pub open spec fn tail_of(t: TrackText) -> TailModel {
    TailModel {
        reference: t.reference.deep_view(),
        time_control_points: match t.time_control_points {
            Some(pts) => Some(points_read(pts@)),
            None => None,
        },
    }
}

proof fn lemma_points_texts_len(pts: Seq<ControlPoint>, short: bool)
    ensures
        points_texts(pts, short).len() == (if short { 2int } else { 4int }) * pts.len(),
    decreases pts.len(),
{
    if pts.len() > 0 {
        lemma_points_texts_len(pts.drop_last(), short);
    }
}

/// Writing a track and reading the text back, under the host information
/// that matches the track, gives back its values, flag field (with the
/// reference bit set by the reference expression), movement name, written
/// sections, reference expression and time control points, when the texts of
/// the track can be told apart.
pub proof fn law_write_then_read(t: TrackText)
    requires
        readable(t),
    ensures
        spec_parse_head(spec_render(t), info_of(t) is Some) == Some(head_of(t)),
        spec_parse_tail(head_of(t), info_of(t)) == Some(tail_of(t)),
{
    let s = spec_render(t);
    let info = info_of(t);
    let head = head_of(t);
    let values = t.values.deep_view();
    let secs = trailing_sections(t);
    law_written_reference_bit(t);
    if is_bare(t) {
        assert(values =~= seq![values[0]]);
        assert(s == values[0]);
        assert(lacks(s, '|'));
        lemma_split_single(s, '|');
        assert(secs =~= Seq::<Seq<char>>::empty());
        assert(!has_reference(0)) by {
            assert(0u32 & 8u32 != 8u32) by (bit_vector);
        }
    } else {
        let name = crate::render::movement_name(t);
        let flag = spec_with_reference(t.flag, t.reference is Some);
        let dec = decimal(flag as nat);
        lemma_decimal_digits(flag as nat);
        lemma_parse_decimal(flag);
        let parts3 = values + seq![name, dec];
        let n = parts3.len() as int;
        assert(parts3.take(n - 2) =~= values);
        assert(parts3.take(n) =~= parts3);
        lemma_join_take(parts3, ',', n - 2);
        lemma_join_take(parts3, ',', n - 1);
        let first = join(parts3, ',');
        assert(first =~= join(values, ',').push(',') + name.push(',') + dec);
        assert(lacks(dec, ',') && lacks(dec, '|')) by {
            assert forall|i: int| 0 <= i < dec.len() implies dec[i] != ',' && dec[i] != '|' by {
                assert(crate::number::is_digit(dec[i]));
            }
        }
        assert forall|i: int| 0 <= i < parts3.len() implies lacks(#[trigger] parts3[i], ',') && lacks(
            parts3[i],
            '|',
        ) by {
            if i < values.len() {
                assert(parts3[i] == t.values@[i]@);
            }
        }
        lemma_join_lacks(parts3, ',', '|');
        lemma_split_join(parts3, ',');
        let splat = seq![first] + secs;
        lemma_join_prefixed(splat, '|');
        assert(splat.skip(1) =~= secs);
        assert(s =~= join(splat, '|'));
        assert forall|i: int| 0 <= i < splat.len() implies lacks(#[trigger] splat[i], '|') by {
            if i > 0 {
                assert(splat[i] == secs[i - 1]);
            }
        }
        lemma_split_join(splat, '|');
        assert(first.len() > 0);
        assert(s.len() > 0);
        assert(spec_parse_head(s, true) == Some(head));
        // the second step
        let n_ref = reference_sections(head);
        let pos = n_ref + parameter_sections(head, info);
        assert(pos == reference_part(t).len() + parameter_part(t).len());
        match t.time_control_points {
            Some(pts) => {
                if !is_default_points(pts@) {
                    let texts = written_point_texts(pts@);
                    lemma_points_texts_len(pts@, is_short_points(pts@));
                    assert(secs[pos] == join(texts, ','));
                    lemma_split_join(texts, ',');
                    if !is_short_points(pts@) {
                        assert(texts.len() % 4 == 0 && texts.len() != 4);
                    }
                } else {
                    assert(pos == secs.len());
                }
            },
            None => {},
        }
        assert(spec_parse_tail(head, info) == Some(tail_of(t)));
    }
}

/// Two tracks that differ at most in the reference bit of their flag field
/// are written the same: the written reference bit follows the reference
/// expression.
pub proof fn law_reference_bit_ignored(t1: TrackText, t2: TrackText)
    requires
        t1.values == t2.values,
        t1.movement == t2.movement,
        t1.time_control_points == t2.time_control_points,
        t1.reference == t2.reference,
        t1.flag & !REFERENCE == t2.flag & !REFERENCE,
    ensures
        spec_render(t1) == spec_render(t2),
{
    let (f1, f2) = (t1.flag, t2.flag);
    assert(f1 & !8u32 == f2 & !8u32 ==> f1 | 8u32 == f2 | 8u32) by (bit_vector);
    assert(spec_with_reference(f1, t1.reference is Some) == spec_with_reference(
        f2,
        t2.reference is Some,
    ));
    assert(trailing_sections(t1) == trailing_sections(t2));
}

} // verus!
