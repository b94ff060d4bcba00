//! Reading a track string.
//!
//! A track string is read in two steps.  [`parse_head`] splits the text into
//! its `|`-separated sections and reads the first one: the value texts, the
//! movement script and the flag field.  [`parse_tail`] then assigns the other
//! sections, with what the host says of the track ([`TrackInfo`]): the
//! reference expression, the parameter section and the time control points.
//! The numbers stay text; reading them is left to the caller, between the
//! two steps for the values and after the second for the time control.

use crate::error::TrackParseError;
use crate::flag::{contains_reference, has_reference};
use crate::number::{parse_u32, spec_parse_u32, ONE_BITS, QUARTER_BITS, ZERO_BITS};
use crate::text::{get_precision, spec_precision, split, split_on};
use vstd::prelude::*;

verus! {

/// What the host application says of a track bar, as far as reading its
/// text needs it.
#[derive(Clone, Copy, Debug)]
pub struct TrackInfo {
    /// The track's movement script has parameters.
    pub has_params: bool,
    /// The track's movement script has time control.
    pub timecontrol: bool,
}

/// The first section of a track string, read.
pub struct TrackHead<'a> {
    /// The texts of the values, one per mid point.
    pub values: Vec<&'a str>,
    /// The number of digits after the point in the first value text.
    pub precision: usize,
    /// The flag field.
    pub flag: u32,
    /// The movement script's name; `None` for "no movement".
    pub movement: Option<&'a str>,
    /// The sections after the first, in order.
    pub sections: Vec<&'a str>,
}

/// The mathematical content of a [`TrackHead`].
pub struct HeadModel {
    pub values: Seq<Seq<char>>,
    pub precision: usize,
    pub flag: u32,
    pub movement: Option<Seq<char>>,
    pub sections: Seq<Seq<char>>,
}

impl<'a> View for TrackHead<'a> {
    type V = HeadModel;

    open spec fn view(&self) -> HeadModel {
        HeadModel {
            values: self.values.deep_view(),
            precision: self.precision,
            flag: self.flag,
            movement: self.movement.deep_view(),
            sections: self.sections.deep_view(),
        }
    }
}

/// A number of a time control point: a text to be read, or a value fixed
/// by the format, given by its binary64 bits.
pub enum Component<'a> {
    Text(&'a str),
    Bits(u64),
}

/// The mathematical content of a [`Component`].
pub enum ComponentModel {
    Text(Seq<char>),
    Bits(u64),
}

impl<'a> View for Component<'a> {
    type V = ComponentModel;

    open spec fn view(&self) -> ComponentModel {
        match self {
            Component::Text(t) => ComponentModel::Text(t@),
            Component::Bits(b) => ComponentModel::Bits(*b),
        }
    }
}

/// A time control point, as read: its coordinate and its handle offset.
pub struct PointLayout<'a> {
    pub coordinate: (Component<'a>, Component<'a>),
    pub handle_offset: (Component<'a>, Component<'a>),
}

/// The mathematical content of a [`PointLayout`].
pub struct PointModel {
    pub coordinate: (ComponentModel, ComponentModel),
    pub handle_offset: (ComponentModel, ComponentModel),
}

impl<'a> View for PointLayout<'a> {
    type V = PointModel;

    open spec fn view(&self) -> PointModel {
        PointModel {
            coordinate: (self.coordinate.0@, self.coordinate.1@),
            handle_offset: (self.handle_offset.0@, self.handle_offset.1@),
        }
    }
}

/// The mathematical content of a list of [`PointLayout`]s.
pub open spec fn points_view(v: Seq<PointLayout>) -> Seq<PointModel> {
    v.map_values(|p: PointLayout| p@)
}

/// The sections after the first, assigned.
pub struct TrackTail<'a> {
    /// The reference expression.
    pub reference: Option<&'a str>,
    /// The time control points, when the movement has time control.
    pub time_control_points: Option<Vec<PointLayout<'a>>>,
}

/// The mathematical content of a [`TrackTail`].
pub struct TailModel {
    pub reference: Option<Seq<char>>,
    pub time_control_points: Option<Seq<PointModel>>,
}

impl<'a> View for TrackTail<'a> {
    type V = TailModel;

    open spec fn view(&self) -> TailModel {
        TailModel {
            reference: self.reference.deep_view(),
            time_control_points: match self.time_control_points {
                Some(v) => Some(points_view(v@)),
                None => None,
            },
        }
    }
}

/// A point with the four given components.
pub open spec fn point(
    cx: ComponentModel,
    cy: ComponentModel,
    hx: ComponentModel,
    hy: ComponentModel,
) -> PointModel {
    PointModel { coordinate: (cx, cy), handle_offset: (hx, hy) }
}

/// The two default points: (0, 0) and (1, 1), both with handle offsets of
/// one quarter.
pub open spec fn default_points() -> Seq<PointModel> {
    seq![
        point(
            ComponentModel::Bits(ZERO_BITS),
            ComponentModel::Bits(ZERO_BITS),
            ComponentModel::Bits(QUARTER_BITS),
            ComponentModel::Bits(QUARTER_BITS),
        ),
        point(
            ComponentModel::Bits(ONE_BITS),
            ComponentModel::Bits(ONE_BITS),
            ComponentModel::Bits(QUARTER_BITS),
            ComponentModel::Bits(QUARTER_BITS),
        ),
    ]
}

/// The short form: four numbers, the handle offsets of the points at (0, 0)
/// and (1, 1).
pub open spec fn handle_points(t: Seq<Seq<char>>) -> Seq<PointModel> {
    seq![
        point(
            ComponentModel::Bits(ZERO_BITS),
            ComponentModel::Bits(ZERO_BITS),
            ComponentModel::Text(t[0]),
            ComponentModel::Text(t[1]),
        ),
        point(
            ComponentModel::Bits(ONE_BITS),
            ComponentModel::Bits(ONE_BITS),
            ComponentModel::Text(t[2]),
            ComponentModel::Text(t[3]),
        ),
    ]
}

/// The full form: four numbers per point, coordinate then handle offset.
pub open spec fn chunk_points(t: Seq<Seq<char>>) -> Seq<PointModel> {
    Seq::new(
        t.len() / 4,
        |i: int|
            point(
                ComponentModel::Text(t[4 * i]),
                ComponentModel::Text(t[4 * i + 1]),
                ComponentModel::Text(t[4 * i + 2]),
                ComponentModel::Text(t[4 * i + 3]),
            ),
    )
}

/// The name that stands for "no movement".
pub open spec fn no_movement() -> Seq<char> {
    seq!['移', '動', '無', 'し']
}

/// The first step of reading `s`; `None` when the text is not a track.
pub open spec fn spec_parse_head(s: Seq<char>, has_info: bool) -> Option<HeadModel> {
    if s.len() == 0 {
        None
    } else {
        let splat = split_on(s, '|');
        if !has_info && splat.len() == 1 {
            Some(
                HeadModel {
                    values: seq![splat[0]],
                    precision: spec_precision(splat[0]),
                    flag: 0,
                    movement: None,
                    sections: Seq::empty(),
                },
            )
        } else {
            let first = split_on(splat[0], ',');
            if first.len() < 3 {
                None
            } else {
                match spec_parse_u32(first.last()) {
                    None => None,
                    Some(flag) => {
                        let name = first[first.len() - 2];
                        Some(
                            HeadModel {
                                values: first.take(first.len() - 2),
                                precision: spec_precision(first[0]),
                                flag,
                                movement: if name == no_movement() {
                                    None
                                } else {
                                    Some(name)
                                },
                                sections: splat.skip(1),
                            },
                        )
                    },
                }
            }
        }
    }
}

/// How many sections the reference expression takes (0 or 1).
pub open spec fn reference_sections(head: HeadModel) -> int {
    if has_reference(head.flag) {
        1
    } else {
        0
    }
}

/// How many sections the parameters take (0 or 1).
pub open spec fn parameter_sections(head: HeadModel, info: Option<TrackInfo>) -> int {
    if head.movement is Some && (info matches Some(i) && i.has_params) {
        1
    } else {
        0
    }
}

/// The time control points read from the section `sec`; `None` when its
/// number of fields is not a multiple of four.
pub open spec fn spec_time_control(sec: Seq<char>) -> Option<Seq<PointModel>> {
    let parts = split_on(sec, ',');
    if parts.len() % 4 != 0 {
        None
    } else if parts.len() == 4 {
        Some(handle_points(parts))
    } else {
        Some(chunk_points(parts))
    }
}

/// The second step of reading a track; `None` when the text is not a track.
pub open spec fn spec_parse_tail(head: HeadModel, info: Option<TrackInfo>) -> Option<TailModel> {
    let secs = head.sections;
    let n_ref = reference_sections(head);
    let pos = n_ref + parameter_sections(head, info);
    if head.movement is Some && info is None {
        None
    } else if pos > secs.len() {
        None
    } else {
        let reference = if n_ref == 1 {
            Some(secs[0])
        } else {
            None
        };
        if (info matches Some(i) && i.timecontrol) {
            if pos < secs.len() {
                match spec_time_control(secs[pos]) {
                    None => None,
                    Some(t) => Some(TailModel { reference, time_control_points: Some(t) }),
                }
            } else {
                Some(TailModel { reference, time_control_points: Some(default_points()) })
            }
        } else {
            Some(TailModel { reference, time_control_points: None })
        }
    }
}

/// Whether `s` is the name that stands for "no movement".
fn is_no_movement(s: &str) -> (r: bool)
    ensures
        r == (s@ == no_movement()),
{
    if s.unicode_len() != 4 {
        return false;
    }
    let r = s.get_char(0) == '移' && s.get_char(1) == '動' && s.get_char(2) == '無' && s.get_char(3)
        == 'し';
    proof {
        if r {
            assert(s@ =~= no_movement());
        }
    }
    r
}

/// The first step of reading the track string `track`.  `has_info` says
/// whether the host gave information on the track.
///
/// An empty text, a first section with fewer than three fields, and a flag
/// field that is not a `u32` are `UnknownFormat`.  Without information, a
/// text without `|` is a single value.
pub fn parse_head<'a>(track: &'a str, has_info: bool) -> (r: Result<TrackHead<'a>, TrackParseError>)
    ensures
        match r {
            Ok(head) => spec_parse_head(track@, has_info) == Some(head@),
            Err(e) => spec_parse_head(track@, has_info) is None && e == TrackParseError::UnknownFormat,
        },
{
    if track.is_empty() {
        return Err(TrackParseError::UnknownFormat);
    }
    let splat = split(track, '|');
    proof {
        crate::text::lemma_split_nonempty(track@, '|');
    }
    if !has_info && splat.len() == 1 {
        let v = splat[0];
        let values = vec![v];
        let head = TrackHead {
            values,
            precision: get_precision(v),
            flag: 0,
            movement: None,
            sections: Vec::new(),
        };
        proof {
            assert(head@.values =~= seq![v@]);
            assert(head@.sections =~= Seq::<Seq<char>>::empty());
        }
        return Ok(head);
    }
    let first = split(splat[0], ',');
    let n = first.len();
    if n < 3 {
        return Err(TrackParseError::UnknownFormat);
    }
    let flag = match parse_u32(first[n - 1]) {
        Some(f) => f,
        None => {
            return Err(TrackParseError::UnknownFormat);
        },
    };
    let name = first[n - 2];
    let precision = get_precision(first[0]);
    let mut values: Vec<&'a str> = Vec::new();
    let mut i: usize = 0;
    while i < n - 2
        invariant
            n == first.len(),
            n >= 3,
            i <= n - 2,
            values.deep_view() =~= first.deep_view().take(i as int),
        decreases n - 2 - i,
    {
        let ghost before = values.deep_view();
        values.push(first[i]);
        proof {
            assert(values.deep_view() =~= before.push(first[i as int]@));
            assert(first.deep_view().take(i + 1) =~= first.deep_view().take(i as int).push(
                first[i as int]@,
            ));
        }
        i += 1;
    }
    let mut sections: Vec<&'a str> = Vec::new();
    let mut k: usize = 1;
    let m = splat.len();
    while k < m
        invariant
            m == splat.len(),
            1 <= k <= m,
            sections.deep_view() =~= splat.deep_view().subrange(1, k as int),
        decreases m - k,
    {
        let ghost before = sections.deep_view();
        sections.push(splat[k]);
        proof {
            assert(sections.deep_view() =~= before.push(splat[k as int]@));
            assert(splat.deep_view().subrange(1, k + 1) =~= splat.deep_view().subrange(
                1,
                k as int,
            ).push(splat[k as int]@));
        }
        k += 1;
    }
    let movement = if is_no_movement(name) {
        None
    } else {
        Some(name)
    };
    let head = TrackHead { values, precision, flag, movement, sections };
    proof {
        assert(splat.deep_view().subrange(1, m as int) =~= splat.deep_view().skip(1));
    }
    Ok(head)
}

/// The second step of reading a track: assigns the sections after the first
/// with what `info` says of the track.
///
/// A movement script without information, a missing reference section, a
/// missing parameter section and a time control section whose number of
/// fields is not a multiple of four are `UnknownFormat`.
pub fn parse_tail<'a>(head: &TrackHead<'a>, info: &Option<TrackInfo>) -> (r: Result<
    TrackTail<'a>,
    TrackParseError,
>)
    ensures
        match r {
            Ok(tail) => spec_parse_tail(head@, *info) == Some(tail@),
            Err(e) => spec_parse_tail(head@, *info) is None && e == TrackParseError::UnknownFormat,
        },
{
    if head.movement.is_some() && info.is_none() {
        return Err(TrackParseError::UnknownFormat);
    }
    let n = head.sections.len();
    let mut pos: usize = 0;
    let mut reference: Option<&'a str> = None;
    if contains_reference(head.flag) {
        if n == 0 {
            return Err(TrackParseError::UnknownFormat);
        }
        reference = Some(head.sections[0]);
        pos = 1;
    }
    let needs_params = match info {
        Some(i) => head.movement.is_some() && i.has_params,
        None => false,
    };
    if needs_params {
        if pos >= n {
            return Err(TrackParseError::UnknownFormat);
        }
        pos = pos + 1;
    }
    assert(pos == reference_sections(head@) + parameter_sections(head@, *info));
    let timecontrol = match info {
        Some(i) => i.timecontrol,
        None => false,
    };
    if !timecontrol {
        return Ok(TrackTail { reference, time_control_points: None });
    }
    if pos >= n {
        return Ok(TrackTail { reference, time_control_points: Some(default_layout()) });
    }
    let parts = split(head.sections[pos], ',');
    let count = parts.len();
    if count % 4 != 0 {
        return Err(TrackParseError::UnknownFormat);
    }
    if count == 4 {
        Ok(TrackTail { reference, time_control_points: Some(handle_layout(&parts)) })
    } else {
        Ok(TrackTail { reference, time_control_points: Some(chunk_layout(&parts)) })
    }
}

fn default_layout<'a>() -> (v: Vec<PointLayout<'a>>)
    ensures
        points_view(v@) == default_points(),
{
    let v = vec![
        PointLayout {
            coordinate: (Component::Bits(ZERO_BITS), Component::Bits(ZERO_BITS)),
            handle_offset: (Component::Bits(QUARTER_BITS), Component::Bits(QUARTER_BITS)),
        },
        PointLayout {
            coordinate: (Component::Bits(ONE_BITS), Component::Bits(ONE_BITS)),
            handle_offset: (Component::Bits(QUARTER_BITS), Component::Bits(QUARTER_BITS)),
        },
    ];
    proof {
        assert(points_view(v@) =~= default_points());
    }
    v
}

fn handle_layout<'a>(t: &Vec<&'a str>) -> (v: Vec<PointLayout<'a>>)
    requires
        t.len() == 4,
    ensures
        points_view(v@) == handle_points(t.deep_view()),
{
    let v = vec![
        PointLayout {
            coordinate: (Component::Bits(ZERO_BITS), Component::Bits(ZERO_BITS)),
            handle_offset: (Component::Text(t[0]), Component::Text(t[1])),
        },
        PointLayout {
            coordinate: (Component::Bits(ONE_BITS), Component::Bits(ONE_BITS)),
            handle_offset: (Component::Text(t[2]), Component::Text(t[3])),
        },
    ];
    proof {
        assert(points_view(v@) =~= handle_points(t.deep_view()));
    }
    v
}

fn chunk_layout<'a>(t: &Vec<&'a str>) -> (v: Vec<PointLayout<'a>>)
    ensures
        points_view(v@) == chunk_points(t.deep_view()),
{
    let n = t.len() / 4;
    let mut v: Vec<PointLayout<'a>> = Vec::new();
    let mut i: usize = 0;
    while i < n
        invariant
            n == t.len() / 4,
            i <= n,
            points_view(v@) =~= chunk_points(t.deep_view()).take(i as int),
        decreases n - i,
    {
        let ghost before = points_view(v@);
        let p = PointLayout {
            coordinate: (Component::Text(t[4 * i]), Component::Text(t[4 * i + 1])),
            handle_offset: (Component::Text(t[4 * i + 2]), Component::Text(t[4 * i + 3])),
        };
        v.push(p);
        proof {
            assert(points_view(v@) =~= before.push(p@));
            assert(chunk_points(t.deep_view()).take(i + 1) =~= chunk_points(t.deep_view()).take(
                i as int,
            ).push(p@));
        }
        i += 1;
    }
    proof {
        assert(chunk_points(t.deep_view()).take(n as int) =~= chunk_points(t.deep_view()));
    }
    v
}

/// The time control section `sec`, split at `,` into fields `f`: a number
/// of fields that is not a multiple of four is refused; four fields are the
/// handle offsets of a point at (0, 0) and of one at (1, 1); otherwise point
/// `i` has coordinate `(f[4i], f[4i+1])` and handle offset
/// `(f[4i+2], f[4i+3])`.
pub proof fn law_time_control_fields(sec: Seq<char>)
    ensures
        ({
            let f = split_on(sec, ',');
            &&& f.len() % 4 != 0 ==> spec_time_control(sec) is None
            &&& f.len() == 4 ==> spec_time_control(sec) == Some(
                seq![
                    PointModel {
                        coordinate: (ComponentModel::Bits(0u64), ComponentModel::Bits(0u64)),
                        handle_offset: (ComponentModel::Text(f[0]), ComponentModel::Text(f[1])),
                    },
                    PointModel {
                        coordinate: (
                            ComponentModel::Bits(0x3ff0_0000_0000_0000u64),
                            ComponentModel::Bits(0x3ff0_0000_0000_0000u64),
                        ),
                        handle_offset: (ComponentModel::Text(f[2]), ComponentModel::Text(f[3])),
                    },
                ],
            )
            &&& (f.len() % 4 == 0 && f.len() != 4) ==> (spec_time_control(sec) matches Some(ps)
                && ps.len() == f.len() / 4 && forall|i: int|
                #![trigger ps[i]]
                0 <= i < ps.len() ==> ps[i] == PointModel {
                    coordinate: (ComponentModel::Text(f[4 * i]), ComponentModel::Text(f[4 * i + 1])),
                    handle_offset: (
                        ComponentModel::Text(f[4 * i + 2]),
                        ComponentModel::Text(f[4 * i + 3]),
                    ),
                })
        }),
{
    let f = split_on(sec, ',');
    if f.len() == 4 {
        assert(handle_points(f) =~= seq![
            PointModel {
                coordinate: (ComponentModel::Bits(0u64), ComponentModel::Bits(0u64)),
                handle_offset: (ComponentModel::Text(f[0]), ComponentModel::Text(f[1])),
            },
            PointModel {
                coordinate: (
                    ComponentModel::Bits(0x3ff0_0000_0000_0000u64),
                    ComponentModel::Bits(0x3ff0_0000_0000_0000u64),
                ),
                handle_offset: (ComponentModel::Text(f[2]), ComponentModel::Text(f[3])),
            },
        ]);
    }
}

/// Without host information, a track with no movement script reads its
/// reference expression from the first section after the first when its
/// flag field has the reference bit (and is refused only when that section
/// is missing), has no reference otherwise, and has no time control.
pub proof fn law_tail_without_info(head: HeadModel)
    requires
        head.movement is None,
    ensures
        spec_parse_tail(head, None) is None <==> (head.flag & 8u32 == 8u32 && head.sections.len()
            == 0),
        (head.flag & 8u32 == 8u32 && head.sections.len() > 0) ==> spec_parse_tail(head, None)
            == Some(TailModel { reference: Some(head.sections[0]), time_control_points: None }),
        head.flag & 8u32 != 8u32 ==> spec_parse_tail(head, None) == Some(
            TailModel { reference: None, time_control_points: None },
        ),
{
}

/// A movement with time control whose sections end before the time control
/// section has the two default points: (0, 0) and (1, 1), both with handle
/// offsets of one quarter.
pub proof fn law_default_time_control(head: HeadModel, info: TrackInfo)
    requires
        info.timecontrol,
        spec_parse_tail(head, Some(info)) is Some,
        head.sections.len() == reference_sections(head) + parameter_sections(head, Some(info)),
    ensures
        spec_parse_tail(head, Some(info))->0.time_control_points == Some(
            seq![
                PointModel {
                    coordinate: (ComponentModel::Bits(0u64), ComponentModel::Bits(0u64)),
                    handle_offset: (
                        ComponentModel::Bits(0x3fd0_0000_0000_0000u64),
                        ComponentModel::Bits(0x3fd0_0000_0000_0000u64),
                    ),
                },
                PointModel {
                    coordinate: (
                        ComponentModel::Bits(0x3ff0_0000_0000_0000u64),
                        ComponentModel::Bits(0x3ff0_0000_0000_0000u64),
                    ),
                    handle_offset: (
                        ComponentModel::Bits(0x3fd0_0000_0000_0000u64),
                        ComponentModel::Bits(0x3fd0_0000_0000_0000u64),
                    ),
                },
            ],
        ),
{
}

} // verus!
