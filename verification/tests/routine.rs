use pimprobe::probe::Axis::{self, X, Y, Z};
use pimprobe::routine::{
    routine_steps, Distance, Family, Measurement, MoveOffset, MoveTarget, Reference, Span, Step,
};

fn d(factor: i32, span: Span) -> Distance {
    Distance { factor, span }
}

fn start(axis: Axis, factor: i32, span: Span) -> Step {
    Step::Move {
        targets: vec![MoveTarget {
            axis,
            reference: Reference::Start(axis),
            offset: MoveOffset::By(d(factor, span)),
        }],
    }
}

fn touch(axis: Axis, direction: i32, travel: Distance, end: Distance, m: Measurement) -> Step {
    Step::Contact { axis, direction, travel, end, measurement: m }
}

fn over(axes: &[Axis]) -> Step {
    Step::Move {
        targets: axes
            .iter()
            .map(|&a| MoveTarget {
                axis: a,
                reference: Reference::Surface(a),
                offset: MoveOffset::UnderProbe(a),
            })
            .collect(),
    }
}

#[test]
fn z_surface_touches_down_and_returns() {
    assert_eq!(
        routine_steps(Family::Outside, false, 0, 0, true),
        vec![
            touch(Z, -1, d(1, Span::Depth), d(-1, Span::Depth), Measurement::Surface(Z)),
            start(Z, 0, Span::Depth),
        ]
    );
}

#[test]
fn outside_corner_touches_each_side_from_beyond_it() {
    assert_eq!(
        routine_steps(Family::Outside, false, 1, -1, false),
        vec![
            start(X, -1, Span::SearchX),
            start(Z, -1, Span::Depth),
            touch(X, 1, d(1, Span::SearchX), d(0, Span::Depth), Measurement::Surface(X)),
            start(Z, 0, Span::Depth),
            start(X, 0, Span::Depth),
            start(Y, 1, Span::SearchY),
            start(Z, -1, Span::Depth),
            touch(Y, -1, d(1, Span::SearchY), d(0, Span::Depth), Measurement::Surface(Y)),
            start(Z, 0, Span::Depth),
            over(&[X, Y]),
        ]
    );
}

#[test]
fn inside_corner_stays_at_the_starting_height_and_returns() {
    assert_eq!(
        routine_steps(Family::Inside, false, 1, -1, false),
        vec![
            touch(X, 1, d(1, Span::SearchX), d(1, Span::SearchX), Measurement::Surface(X)),
            start(X, 0, Span::Depth),
            touch(Y, -1, d(1, Span::SearchY), d(-1, Span::SearchY), Measurement::Surface(Y)),
            Step::Move {
                targets: vec![
                    MoveTarget { axis: X, reference: Reference::Start(X), offset: MoveOffset::By(d(0, Span::Depth)) },
                    MoveTarget { axis: Y, reference: Reference::Start(Y), offset: MoveOffset::By(d(0, Span::Depth)) },
                ],
            },
        ]
    );
}

#[test]
fn hole_center_touches_opposite_walls_from_inside() {
    let steps = routine_steps(Family::Center, true, 1, 1, false);
    assert_eq!(
        steps,
        vec![
            touch(X, -1, d(2, Span::SearchX), d(-1, Span::SearchX), Measurement::Low(X)),
            touch(X, 1, d(2, Span::SearchX), d(1, Span::SearchX), Measurement::High(X)),
            Step::Center { axis: X },
            over(&[X]),
            touch(Y, -1, d(2, Span::SearchY), d(-1, Span::SearchY), Measurement::Low(Y)),
            touch(Y, 1, d(2, Span::SearchY), d(1, Span::SearchY), Measurement::High(Y)),
            Step::Center { axis: Y },
            over(&[X, Y]),
        ]
    );
}

#[test]
fn ridge_center_goes_around_the_ridge_at_depth() {
    assert_eq!(
        routine_steps(Family::Center, false, 1, 0, false),
        vec![
            start(X, -1, Span::SearchX),
            start(Z, -1, Span::Depth),
            touch(X, 1, d(1, Span::SearchX), d(0, Span::Depth), Measurement::Low(X)),
            start(Z, 0, Span::Depth),
            start(X, 1, Span::SearchX),
            start(Z, -1, Span::Depth),
            touch(X, -1, d(1, Span::SearchX), d(0, Span::Depth), Measurement::High(X)),
            Step::Center { axis: X },
            start(Z, 0, Span::Depth),
            over(&[X]),
        ]
    );
}
