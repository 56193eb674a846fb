//! The steps of a probing routine.
//!
//! A routine is a sequence of steps: positioning moves relative to named
//! points (the starting position and the measured surfaces), contacts that
//! measure a surface, and centers computed from two opposing contacts. Which
//! steps a routine takes depends only on the selected feature; the
//! distances are the routine's settings, named here by which setting and
//! with what factor, and turned into coordinates by the caller.
use crate::probe::Axis;
use crate::service::axes_spec;
use vstd::prelude::*;

verus! {

/// The kind of feature a routine measures.
#[derive(Debug, Clone, Copy, PartialEq, Eq, Structural)]
pub enum Family {
    Inside,
    Outside,
    Center,
}

/// A distance setting of a routine.
#[derive(Debug, Clone, Copy, PartialEq, Eq, Structural)]
pub enum Span {
    /// How far below the start the sides are touched.
    Depth,
    /// The X search distance.
    SearchX,
    /// The Y search distance.
    SearchY,
}

/// `factor` times the setting `span`.
#[derive(Debug, Clone, Copy, PartialEq, Eq, Structural)]
pub struct Distance {
    pub factor: i32,
    pub span: Span,
}

/// A named point of one axis.
#[derive(Debug, Clone, Copy, PartialEq, Eq, Structural)]
pub enum Reference {
    /// Where the routine started (`start_x`).
    Start(Axis),
    /// The measured surface, compensated for the ball (`surface_x`).
    Surface(Axis),
}

/// How far from its reference a move ends.
#[derive(Debug, Clone, Copy, PartialEq, Eq, Structural)]
pub enum MoveOffset {
    By(Distance),
    /// Minus the probe offset of the axis: the spindle over the point that
    /// the probe measured.
    UnderProbe(Axis),
}

/// One axis of a positioning move.
#[derive(Debug, Clone, Copy, PartialEq, Eq, Structural)]
pub struct MoveTarget {
    pub axis: Axis,
    pub reference: Reference,
    pub offset: MoveOffset,
}

/// What a contact measures.
#[derive(Debug, Clone, Copy, PartialEq, Eq, Structural)]
pub enum Measurement {
    /// The surface along the axis (`x`).
    Surface(Axis),
    /// The lower of two opposing surfaces (`x_low`).
    Low(Axis),
    /// The upper of two opposing surfaces (`x_high`).
    High(Axis),
}

/// One step of a routine.
#[derive(Debug, Clone, PartialEq, Eq)]
pub enum Step {
    /// A double touch along `axis` toward `direction`, searching at most
    /// `travel` and never past `end` from the starting position.
    Contact { axis: Axis, direction: i32, travel: Distance, end: Distance, measurement: Measurement },
    /// The listed axes move together.
    Move { targets: Vec<MoveTarget> },
    /// The center of the two opposing surfaces along `axis`.
    Center { axis: Axis },
}

pub enum StepView {
    Contact { axis: Axis, direction: i32, travel: Distance, end: Distance, measurement: Measurement },
    Move { targets: Seq<MoveTarget> },
    Center { axis: Axis },
}

impl View for Step {
    type V = StepView;

    open spec fn view(&self) -> StepView {
        match self {
            Step::Contact { axis, direction, travel, end, measurement } => StepView::Contact {
                axis: *axis,
                direction: *direction,
                travel: *travel,
                end: *end,
                measurement: *measurement,
            },
            Step::Move { targets } => StepView::Move { targets: targets@ },
            Step::Center { axis } => StepView::Center { axis: *axis },
        }
    }
}

pub open spec fn steps_view(v: Seq<Step>) -> Seq<StepView> {
    v.map_values(|s: Step| s@)
}

pub open spec fn dist(factor: i32, span: Span) -> Distance {
    Distance { factor, span }
}

pub open spec fn nothing() -> Distance {
    Distance { factor: 0, span: Span::Depth }
}

pub open spec fn search(axis: Axis) -> Span {
    if axis == Axis::Y {
        Span::SearchY
    } else {
        Span::SearchX
    }
}

pub open spec fn mv(axis: Axis, reference: Reference, offset: MoveOffset) -> StepView {
    StepView::Move { targets: seq![MoveTarget { axis, reference, offset }] }
}

/// A move of `axis` to `factor` times `span` from where it started.
pub open spec fn to_start(axis: Axis, factor: i32, span: Span) -> StepView {
    mv(axis, Reference::Start(axis), MoveOffset::By(dist(factor, span)))
}

pub open spec fn touch(
    axis: Axis,
    direction: i32,
    travel: Distance,
    end: Distance,
    measurement: Measurement,
) -> StepView {
    StepView::Contact { axis, direction, travel, end, measurement }
}

pub open spec fn when(c: bool, s: Seq<StepView>) -> Seq<StepView> {
    if c {
        s
    } else {
        Seq::<StepView>::empty()
    }
}

/// A Z surface: touch down at most the depth, then back up.
pub open spec fn z_steps() -> Seq<StepView> {
    seq![
        touch(Axis::Z, -1i32, dist(1, Span::Depth), dist(-1i32, Span::Depth), Measurement::Surface(Axis::Z)),
        to_start(Axis::Z, 0, Span::Depth),
    ]
}

/// The side of an outside feature along `axis`: move out past the edge,
/// lower to the depth and touch back toward the start.
pub open spec fn outside_side(axis: Axis, d: i32) -> Seq<StepView> {
    seq![
        to_start(axis, (-d) as i32, search(axis)),
        to_start(Axis::Z, -1i32, Span::Depth),
        touch(axis, d, dist(1, search(axis)), nothing(), Measurement::Surface(axis)),
    ]
}

pub open spec fn outside_steps(x: i32, y: i32) -> Seq<StepView> {
    when(x != 0, outside_side(Axis::X, x) + when(y != 0, seq![to_start(Axis::Z, 0, Span::Depth)]))
        + when(y != 0, when(x != 0, seq![to_start(Axis::X, 0, Span::Depth)]) + outside_side(Axis::Y, y))
}

pub open spec fn inside_steps(x: i32, y: i32) -> Seq<StepView> {
    when(
        x != 0,
        seq![touch(Axis::X, x, dist(1, Span::SearchX), dist(x, Span::SearchX), Measurement::Surface(Axis::X))],
    ) + when(
        y != 0,
        when(x != 0, seq![to_start(Axis::X, 0, Span::Depth)]) + seq![
            touch(Axis::Y, y, dist(1, Span::SearchY), dist(y, Span::SearchY), Measurement::Surface(Axis::Y)),
        ],
    )
}

pub open spec fn side_measurement(axis: Axis, side: i32) -> Measurement {
    if side < 0 {
        Measurement::Low(axis)
    } else {
        Measurement::High(axis)
    }
}

/// One of the two opposing touches of a center along `axis`: from inside a
/// hole, pocket or valley straight out; around a boss, block or ridge from
/// beyond the side, at the depth.
pub open spec fn center_side(axis: Axis, side: i32, internal: bool, y: i32) -> Seq<StepView> {
    if internal {
        seq![touch(axis, side, dist(2, search(axis)), dist(side, search(axis)), side_measurement(axis, side))]
    } else {
        seq![
            to_start(axis, side, search(axis)),
            to_start(Axis::Z, -1i32, Span::Depth),
            touch(axis, (-side) as i32, dist(1, search(axis)), nothing(), side_measurement(axis, side)),
        ] + when(side < 0 || (axis == Axis::X && y != 0), seq![to_start(Axis::Z, 0, Span::Depth)])
    }
}

/// The center along `axis`; with Y still to measure, the spindle first goes
/// over the X center.
pub open spec fn center_axis(axis: Axis, internal: bool, y: i32) -> Seq<StepView> {
    center_side(axis, -1i32, internal, y) + center_side(axis, 1, internal, y) + seq![
        StepView::Center { axis },
    ] + when(
        axis == Axis::X && y != 0,
        seq![mv(Axis::X, Reference::Surface(Axis::X), MoveOffset::UnderProbe(Axis::X))],
    )
}

pub open spec fn center_steps(x: i32, y: i32, internal: bool) -> Seq<StepView> {
    when(x != 0, center_axis(Axis::X, internal, y)) + when(y != 0, center_axis(Axis::Y, internal, y))
}

/// The final move of the measured axes together: back to the start for an
/// inside feature, over the measured point otherwise, after lifting back to
/// the starting height unless the feature was measured from inside.
pub open spec fn final_steps(family: Family, internal: bool, x: i32, y: i32) -> Seq<StepView> {
    let axes = axes_spec(x, y, false);
    if family == Family::Inside {
        seq![
            StepView::Move {
                targets: axes.map_values(
                    |a: Axis|
                        MoveTarget {
                            axis: a,
                            reference: Reference::Start(a),
                            offset: MoveOffset::By(nothing()),
                        },
                ),
            },
        ]
    } else {
        when(!internal, seq![to_start(Axis::Z, 0, Span::Depth)]) + seq![
            StepView::Move {
                targets: axes.map_values(
                    |a: Axis|
                        MoveTarget {
                            axis: a,
                            reference: Reference::Surface(a),
                            offset: MoveOffset::UnderProbe(a),
                        },
                ),
            },
        ]
    }
}

/// The steps of a routine. `internal` says whether a center feature is
/// measured from inside; `x` and `y` are the directions of the edge or
/// corner, or the axes of a center; `z` selects a Z surface.
pub open spec fn routine_spec(family: Family, internal: bool, x: i32, y: i32, z: bool) -> Seq<StepView> {
    if z {
        z_steps()
    } else {
        (match family {
            Family::Center => center_steps(x, y, internal),
            Family::Outside => outside_steps(x, y),
            Family::Inside => inside_steps(x, y),
        }) + final_steps(family, internal, x, y)
    }
}

/// Whether a step moves or measures along Z.
pub open spec fn involves_z(s: StepView) -> bool {
    match s {
        StepView::Contact { axis, .. } => axis == Axis::Z,
        StepView::Move { targets } => exists|i: int|
            0 <= i < targets.len() && (#[trigger] targets[i]).axis == Axis::Z,
        StepView::Center { axis } => axis == Axis::Z,
    }
}

/// The axes that a move moves.
pub open spec fn moved_axes(targets: Seq<MoveTarget>) -> Seq<Axis> {
    targets.map_values(|t: MoveTarget| t.axis)
}

/// An inside edge or corner is touched and left at the starting height: no
/// step moves or measures Z, and the routine ends with the measured axes
/// back at the start.
pub proof fn lemma_inside_routines_stay_at_starting_height(internal: bool, x: i32, y: i32)
    requires
        -1 <= x <= 1,
        -1 <= y <= 1,
    ensures
        ({
            let r = routine_spec(Family::Inside, internal, x, y, false);
            &&& forall|i: int| 0 <= i < r.len() ==> !involves_z(#[trigger] r[i])
            &&& r.last() == StepView::Move {
                targets: axes_spec(x, y, false).map_values(
                    |a: Axis|
                        MoveTarget {
                            axis: a,
                            reference: Reference::Start(a),
                            offset: MoveOffset::By(nothing()),
                        },
                ),
            }
        }),
{
    let r = routine_spec(Family::Inside, internal, x, y, false);
    let last = final_steps(Family::Inside, internal, x, y)[0];
    assert(r =~= inside_steps(x, y) + seq![last]);
    let axes = axes_spec(x, y, false);
    assert forall|k: int| 0 <= k < axes.len() implies #[trigger] axes[k] != Axis::Z by {}
    assert(!involves_z(last)) by {
        if let StepView::Move { targets } = last {
            assert forall|k: int| 0 <= k < targets.len() implies (#[trigger] targets[k]).axis
                != Axis::Z by {
                assert(targets[k].axis == axes[k]);
            }
        }
    }
    assert(!involves_z(to_start(Axis::X, 0, Span::Depth))) by {
        let m = seq![MoveTarget {
            axis: Axis::X,
            reference: Reference::Start(Axis::X),
            offset: MoveOffset::By(dist(0, Span::Depth)),
        }];
        assert(m[0].axis == Axis::X);
    }
    assert forall|i: int| 0 <= i < r.len() implies !involves_z(#[trigger] r[i]) by {
        if i == r.len() - 1 {
            assert(r[i] == last);
        } else {
            assert(r[i] == inside_steps(x, y)[i]);
        }
    }
}

/// A Z surface routine ends back at its starting height.
pub proof fn lemma_z_routines_return_to_starting_height(family: Family, internal: bool, x: i32, y: i32)
    ensures
        routine_spec(family, internal, x, y, true).last() == to_start(Axis::Z, 0, Span::Depth),
{
}

/// Every other routine ends with one move of exactly the measured axes,
/// together; an unmeasured axis stays where it is. Outside and center
/// features end with the spindle over the measured point.
pub proof fn lemma_measured_axes_move_together(family: Family, internal: bool, x: i32, y: i32)
    ensures
        ({
            let r = routine_spec(family, internal, x, y, false);
            &&& r.last() is Move
            &&& moved_axes(r.last()->targets) == axes_spec(x, y, false)
            &&& family != Family::Inside ==> forall|k: int|
                0 <= k < r.last()->targets.len() ==> (#[trigger] r.last()->targets[k]).offset
                    == MoveOffset::UnderProbe(r.last()->targets[k].axis)
        }),
{
    let r = routine_spec(family, internal, x, y, false);
    let f = final_steps(family, internal, x, y);
    let head = match family {
        Family::Center => center_steps(x, y, internal),
        Family::Outside => outside_steps(x, y),
        Family::Inside => inside_steps(x, y),
    };
    assert(r == head + f);
    assert(r.last() == f.last());
    let t = f.last()->targets;
    assert(moved_axes(t) =~= axes_spec(x, y, false));
}

/// A touch of one side of a part along X or Y.
pub open spec fn side_touch(s: StepView) -> bool {
    s matches StepView::Contact { axis, measurement, .. } && axis != Axis::Z && (measurement
        == Measurement::Low(axis) || measurement == Measurement::High(axis))
}

/// A move that takes the spindle along X or Y.
pub open spec fn horizontal_move(s: StepView) -> bool {
    s matches StepView::Move { targets } && exists|k: int|
        0 <= k < targets.len() && (#[trigger] targets[k]).axis != Axis::Z
}

/// A move of Z back to the starting height.
pub open spec fn lift() -> StepView {
    to_start(Axis::Z, 0, Span::Depth)
}

spec fn beyond(a: Axis, side: i32) -> StepView {
    to_start(a, side, search(a))
}

spec fn lower() -> StepView {
    to_start(Axis::Z, -1i32, Span::Depth)
}

spec fn low_touch(a: Axis) -> StepView {
    touch(a, 1, dist(1, search(a)), nothing(), Measurement::Low(a))
}

spec fn high_touch(a: Axis) -> StepView {
    touch(a, -1i32, dist(1, search(a)), nothing(), Measurement::High(a))
}

/// After each side touch of a boss, block or ridge the next step lifts the
/// probe back to the starting height, or computes the center and then
/// lifts.
proof fn lemma_center_touches_lift(x: i32, y: i32)
    ensures
        ({
            let r = routine_spec(Family::Center, false, x, y, false);
            &&& forall|i: int|
                0 <= i < r.len() && side_touch(#[trigger] r[i]) ==> (i + 1 < r.len() && r[i + 1]
                    == lift()) || (i + 2 < r.len() && r[i + 1] is Center && r[i + 2] == lift())
            &&& forall|i: int|
                0 <= i < r.len() && side_touch(#[trigger] r[i]) ==> ({
                    let a = r[i]->Contact_axis;
                    let d = r[i]->Contact_direction;
                    &&& 2 <= i
                    &&& r[i - 1] == to_start(Axis::Z, -1i32, Span::Depth)
                    &&& r[i - 2] == to_start(a, (-d) as i32, search(a))
                    &&& (d == 1 <==> r[i]->Contact_measurement == Measurement::Low(a))
                    &&& (d == -1 <==> r[i]->Contact_measurement == Measurement::High(a))
                })
        }),
{
    let r = routine_spec(Family::Center, false, x, y, false);
    let fin = final_steps(Family::Center, false, x, y)[1];
    let over_x = mv(Axis::X, Reference::Surface(Axis::X), MoveOffset::UnderProbe(Axis::X));
    let cx = StepView::Center { axis: Axis::X };
    let cy = StepView::Center { axis: Axis::Y };
    assert(final_steps(Family::Center, false, x, y) =~= seq![lift(), fin]);
    if x != 0 && y != 0 {
        assert(r =~= seq![
            beyond(Axis::X, -1i32), lower(), low_touch(Axis::X), lift(),
            beyond(Axis::X, 1), lower(), high_touch(Axis::X), lift(), cx, over_x,
            beyond(Axis::Y, -1i32), lower(), low_touch(Axis::Y), lift(),
            beyond(Axis::Y, 1), lower(), high_touch(Axis::Y), cy, lift(), fin,
        ]);
    } else if x != 0 {
        assert(r =~= seq![
            beyond(Axis::X, -1i32), lower(), low_touch(Axis::X), lift(),
            beyond(Axis::X, 1), lower(), high_touch(Axis::X), cx, lift(), fin,
        ]);
    } else if y != 0 {
        assert(r =~= seq![
            beyond(Axis::Y, -1i32), lower(), low_touch(Axis::Y), lift(),
            beyond(Axis::Y, 1), lower(), high_touch(Axis::Y), cy, lift(), fin,
        ]);
    } else {
        assert(r =~= seq![lift(), fin]);
    }
}

/// Each side of a boss, block or ridge is touched from beyond it at depth:
/// the probe first moves out past that side along the axis, then lowers to
/// the depth, then touches back toward the start; the low side is touched
/// moving up the axis and the high side moving down it.
pub proof fn lemma_center_sides_touched_from_beyond(x: i32, y: i32)
    ensures
        ({
            let r = routine_spec(Family::Center, false, x, y, false);
            forall|i: int|
                0 <= i < r.len() && side_touch(#[trigger] r[i]) ==> ({
                    let a = r[i]->Contact_axis;
                    let d = r[i]->Contact_direction;
                    &&& 2 <= i
                    &&& r[i - 1] == to_start(Axis::Z, -1i32, Span::Depth)
                    &&& r[i - 2] == to_start(a, (-d) as i32, search(a))
                    &&& (d == 1 <==> r[i]->Contact_measurement == Measurement::Low(a))
                    &&& (d == -1 <==> r[i]->Contact_measurement == Measurement::High(a))
                })
        }),
{
    lemma_center_touches_lift(x, y);
}

/// Around a boss, block or ridge the probe never crosses the part at depth:
/// between touching a side and the next move along X or Y, the probe is
/// lifted back to the starting height.
pub proof fn lemma_centers_lift_before_crossing(x: i32, y: i32)
    ensures
        ({
            let r = routine_spec(Family::Center, false, x, y, false);
            forall|i: int, j: int|
                0 <= i < j < r.len() && side_touch(#[trigger] r[i]) && horizontal_move(#[trigger] r[j])
                    ==> exists|k: int| i < k < j && #[trigger] r[k] == lift()
        }),
{
    let r = routine_spec(Family::Center, false, x, y, false);
    lemma_center_touches_lift(x, y);
    assert(!horizontal_move(lift())) by {
        if let StepView::Move { targets } = lift() {
            assert(targets.len() == 1 && targets[0].axis == Axis::Z);
        }
    }
    assert forall|i: int, j: int|
        0 <= i < j < r.len() && side_touch(#[trigger] r[i]) && horizontal_move(#[trigger] r[j])
        implies exists|k: int| i < k < j && #[trigger] r[k] == lift() by {
        if r[i + 1] == lift() {
            assert(r[i + 1] == lift());
        } else {
            assert(r[i + 2] == lift());
        }
    }
}

/// A touch of an edge along X or Y.
pub open spec fn edge_touch(s: StepView) -> bool {
    s matches StepView::Contact { axis, measurement, .. } && axis != Axis::Z && measurement
        == Measurement::Surface(axis)
}

/// An outside edge or corner is touched from beyond the edge at depth, and
/// the probe is lifted back to the starting height right after each touch,
/// before any move along X or Y.
pub proof fn lemma_outside_edges_touched_at_depth_then_lifted(x: i32, y: i32)
    requires
        -1 <= x <= 1,
        -1 <= y <= 1,
    ensures
        ({
            let r = routine_spec(Family::Outside, false, x, y, false);
            forall|i: int|
                0 <= i < r.len() && edge_touch(#[trigger] r[i]) ==> ({
                    let a = r[i]->Contact_axis;
                    let d = r[i]->Contact_direction;
                    &&& 2 <= i && i + 1 < r.len()
                    &&& r[i - 1] == to_start(Axis::Z, -1i32, Span::Depth)
                    &&& r[i - 2] == to_start(a, (-d) as i32, search(a))
                    &&& r[i + 1] == lift()
                })
        }),
{
    let r = routine_spec(Family::Outside, false, x, y, false);
    let fin = final_steps(Family::Outside, false, x, y)[1];
    assert(final_steps(Family::Outside, false, x, y) =~= seq![lift(), fin]);
    let ex = touch(Axis::X, x, dist(1, Span::SearchX), nothing(), Measurement::Surface(Axis::X));
    let ey = touch(Axis::Y, y, dist(1, Span::SearchY), nothing(), Measurement::Surface(Axis::Y));
    if x != 0 && y != 0 {
        assert(r =~= seq![
            to_start(Axis::X, (-x) as i32, Span::SearchX), lower(), ex, lift(),
            to_start(Axis::X, 0, Span::Depth),
            to_start(Axis::Y, (-y) as i32, Span::SearchY), lower(), ey, lift(), fin,
        ]);
    } else if x != 0 {
        assert(r =~= seq![to_start(Axis::X, (-x) as i32, Span::SearchX), lower(), ex, lift(), fin]);
    } else if y != 0 {
        assert(r =~= seq![to_start(Axis::Y, (-y) as i32, Span::SearchY), lower(), ey, lift(), fin]);
    } else {
        assert(r =~= seq![lift(), fin]);
    }
}

// ---------------------------------------------------------------------------
// Exec.
fn distance(factor: i32, span: Span) -> (d: Distance)
    ensures
        d == dist(factor, span),
{
    Distance { factor, span }
}

fn to_start_exec(axis: Axis, factor: i32, span: Span) -> (s: Step)
    ensures
        s@ == to_start(axis, factor, span),
{
    let targets = vec![
        MoveTarget { axis, reference: Reference::Start(axis), offset: MoveOffset::By(distance(factor, span)) },
    ];
    let s = Step::Move { targets };
    assert(s@ == to_start(axis, factor, span)) by {
        assert(targets@ =~= seq![MoveTarget { axis, reference: Reference::Start(axis), offset: MoveOffset::By(dist(factor, span)) }]);
    }
    s
}

fn search_exec(axis: Axis) -> (s: Span)
    ensures
        s == search(axis),
{
    match axis {
        Axis::Y => Span::SearchY,
        _ => Span::SearchX,
    }
}

/// Appends `more` to `out`, in views.
fn extend(out: &mut Vec<Step>, more: Vec<Step>)
    ensures
        steps_view(final(out)@) == steps_view(old(out)@) + steps_view(more@),
{
    let mut more = more;
    let ghost a = out@;
    let ghost b = more@;
    out.append(&mut more);
    assert(steps_view(out@) =~= steps_view(a) + steps_view(b));
}

fn one(s: Step) -> (v: Vec<Step>)
    ensures
        steps_view(v@) == seq![s@],
{
    let v = vec![s];
    assert(steps_view(v@) =~= seq![s@]);
    v
}

fn outside_side_exec(axis: Axis, d: i32) -> (v: Vec<Step>)
    requires
        -1 <= d <= 1,
    ensures
        steps_view(v@) == outside_side(axis, d),
{
    let span = search_exec(axis);
    let back: i32 = -d;
    let v = vec![
        to_start_exec(axis, back, span),
        to_start_exec(Axis::Z, -1, Span::Depth),
        Step::Contact {
            axis,
            direction: d,
            travel: distance(1, span),
            end: distance(0, Span::Depth),
            measurement: Measurement::Surface(axis),
        },
    ];
    assert(steps_view(v@) =~= outside_side(axis, d));
    v
}

fn center_side_exec(axis: Axis, side: i32, internal: bool, y: i32) -> (v: Vec<Step>)
    requires
        side == -1 || side == 1,
    ensures
        steps_view(v@) == center_side(axis, side, internal, y),
{
    let span = search_exec(axis);
    let measurement = if side < 0 {
        Measurement::Low(axis)
    } else {
        Measurement::High(axis)
    };
    if internal {
        let v = one(
            Step::Contact {
                axis,
                direction: side,
                travel: distance(2, span),
                end: distance(side, span),
                measurement,
            },
        );
        return v;
    }
    let toward: i32 = -side;
    let mut v = vec![
        to_start_exec(axis, side, span),
        to_start_exec(Axis::Z, -1, Span::Depth),
        Step::Contact {
            axis,
            direction: toward,
            travel: distance(1, span),
            end: distance(0, Span::Depth),
            measurement,
        },
    ];
    assert(steps_view(v@) =~= seq![
        to_start(axis, side, search(axis)),
        to_start(Axis::Z, -1i32, Span::Depth),
        touch(axis, (-side) as i32, dist(1, search(axis)), nothing(), side_measurement(axis, side)),
    ]);
    let ghost head = steps_view(v@);
    if side < 0 || (axis == Axis::X && y != 0) {
        extend(&mut v, one(to_start_exec(Axis::Z, 0, Span::Depth)));
    } else {
        assert(head + Seq::<StepView>::empty() =~= head);
    }
    v
}

fn center_axis_exec(axis: Axis, internal: bool, y: i32) -> (v: Vec<Step>)
    ensures
        steps_view(v@) == center_axis(axis, internal, y),
{
    let mut v = center_side_exec(axis, -1, internal, y);
    extend(&mut v, center_side_exec(axis, 1, internal, y));
    extend(&mut v, one(Step::Center { axis }));
    let ghost head = steps_view(v@);
    if axis == Axis::X && y != 0 {
        let over = vec![
            MoveTarget {
                axis: Axis::X,
                reference: Reference::Surface(Axis::X),
                offset: MoveOffset::UnderProbe(Axis::X),
            },
        ];
        let s = Step::Move { targets: over };
        assert(s@ == mv(Axis::X, Reference::Surface(Axis::X), MoveOffset::UnderProbe(Axis::X))) by {
            assert(over@ =~= seq![MoveTarget {
                axis: Axis::X,
                reference: Reference::Surface(Axis::X),
                offset: MoveOffset::UnderProbe(Axis::X),
            }]);
        }
        extend(&mut v, one(s));
    } else {
        assert(head + Seq::<StepView>::empty() =~= head);
    }
    v
}

fn final_exec(family: Family, internal: bool, x: i32, y: i32) -> (v: Vec<Step>)
    ensures
        steps_view(v@) == final_steps(family, internal, x, y),
{
    let axes = crate::service::routine_axes(x, y, false);
    let ghost a = axes_spec(x, y, false);
    let inside = family == Family::Inside;
    let mut targets: Vec<MoveTarget> = Vec::new();
    let mut i: usize = 0;
    while i < axes.len()
        invariant
            i <= axes.len(),
            axes@ == a,
            inside == (family == Family::Inside),
            targets@ == (if inside {
                a.take(i as int).map_values(
                    |b: Axis|
                        MoveTarget {
                            axis: b,
                            reference: Reference::Start(b),
                            offset: MoveOffset::By(nothing()),
                        },
                )
            } else {
                a.take(i as int).map_values(
                    |b: Axis|
                        MoveTarget {
                            axis: b,
                            reference: Reference::Surface(b),
                            offset: MoveOffset::UnderProbe(b),
                        },
                )
            }),
        decreases axes.len() - i,
    {
        let b = axes[i];
        let t = if inside {
            MoveTarget { axis: b, reference: Reference::Start(b), offset: MoveOffset::By(distance(0, Span::Depth)) }
        } else {
            MoveTarget { axis: b, reference: Reference::Surface(b), offset: MoveOffset::UnderProbe(b) }
        };
        targets.push(t);
        i += 1;
        proof {
            assert(a.take(i as int).drop_last() =~= a.take(i - 1));
            if inside {
                assert(targets@ =~= a.take(i as int).map_values(
                    |b: Axis|
                        MoveTarget {
                            axis: b,
                            reference: Reference::Start(b),
                            offset: MoveOffset::By(nothing()),
                        },
                ));
            } else {
                assert(targets@ =~= a.take(i as int).map_values(
                    |b: Axis|
                        MoveTarget {
                            axis: b,
                            reference: Reference::Surface(b),
                            offset: MoveOffset::UnderProbe(b),
                        },
                ));
            }
        }
    }
    assert(a.take(axes.len() as int) =~= a);
    let last = Step::Move { targets };
    if inside {
        return one(last);
    }
    let mut v: Vec<Step> = Vec::new();
    assert(steps_view(v@) =~= Seq::<StepView>::empty());
    if !internal {
        extend(&mut v, one(to_start_exec(Axis::Z, 0, Span::Depth)));
    }
    extend(&mut v, one(last));
    v
}

/// The steps of a routine: for a Z surface, a touch down and back up; for
/// an outside edge or corner, each side touched from beyond it at the
/// depth; for an inside edge or corner, each side touched from the start at
/// its height; for a center, two opposing touches per axis; and, unless Z
/// was measured, a final move of the measured axes together.
pub fn routine_steps(family: Family, internal: bool, x: i32, y: i32, z: bool) -> (r: Vec<Step>)
    requires
        -1 <= x <= 1,
        -1 <= y <= 1,
    ensures
        steps_view(r@) == routine_spec(family, internal, x, y, z),
{
    if z {
        let mut v = one(
            Step::Contact {
                axis: Axis::Z,
                direction: -1,
                travel: distance(1, Span::Depth),
                end: distance(-1, Span::Depth),
                measurement: Measurement::Surface(Axis::Z),
            },
        );
        extend(&mut v, one(to_start_exec(Axis::Z, 0, Span::Depth)));
        assert(steps_view(v@) =~= z_steps());
        return v;
    }
    let mut v: Vec<Step> = Vec::new();
    assert(steps_view(v@) =~= Seq::<StepView>::empty());
    match family {
        Family::Center => {
            if x != 0 {
                extend(&mut v, center_axis_exec(Axis::X, internal, y));
            }
            if y != 0 {
                extend(&mut v, center_axis_exec(Axis::Y, internal, y));
            }
            assert(steps_view(v@) =~= center_steps(x, y, internal));
        },
        Family::Outside => {
            if x != 0 {
                extend(&mut v, outside_side_exec(Axis::X, x));
                if y != 0 {
                    extend(&mut v, one(to_start_exec(Axis::Z, 0, Span::Depth)));
                }
            }
            let ghost xs = steps_view(v@);
            if y != 0 {
                if x != 0 {
                    extend(&mut v, one(to_start_exec(Axis::X, 0, Span::Depth)));
                }
                extend(&mut v, outside_side_exec(Axis::Y, y));
            }
            assert(steps_view(v@) =~= outside_steps(x, y));
        },
        Family::Inside => {
            if x != 0 {
                extend(
                    &mut v,
                    one(
                        Step::Contact {
                            axis: Axis::X,
                            direction: x,
                            travel: distance(1, Span::SearchX),
                            end: distance(x, Span::SearchX),
                            measurement: Measurement::Surface(Axis::X),
                        },
                    ),
                );
            }
            if y != 0 {
                if x != 0 {
                    extend(&mut v, one(to_start_exec(Axis::X, 0, Span::Depth)));
                }
                extend(
                    &mut v,
                    one(
                        Step::Contact {
                            axis: Axis::Y,
                            direction: y,
                            travel: distance(1, Span::SearchY),
                            end: distance(y, Span::SearchY),
                            measurement: Measurement::Surface(Axis::Y),
                        },
                    ),
                );
            }
            assert(steps_view(v@) =~= inside_steps(x, y));
        },
    }
    extend(&mut v, final_exec(family, internal, x, y));
    v
}

} // verus!
