use pimprobe::reviews::Reviews;

/// Stands in for a reviewed routine plan.
#[derive(Clone, Debug, PartialEq)]
struct Plan(&'static str);

/// Stands in for a routine result.
#[derive(Clone, Debug, PartialEq)]
struct Outcome {
    settled: bool,
}

#[test]
fn authorizations_are_one_shot_and_bound_to_connection() {
    let plan = Plan("outside X+ edge");
    let mut reviews: Reviews<Plan, Outcome> = Reviews::default();
    let id = reviews.put(plan.clone(), 1);
    assert!(reviews.take(&id, 2).is_none());
    assert!(reviews.take(&id, 1).is_some());
    assert!(reviews.take(&id, 1).is_none());
    let result = Outcome { settled: true };
    reviews.finish(id.clone(), 1, plan, result.clone(), result.settled);
    assert!(reviews.take_completed(&id, 2).is_none());
    assert!(reviews.take_completed(&id, 1).is_some());
    assert!(reviews.take_completed(&id, 1).is_none());
}

#[test]
fn a_new_review_replaces_the_pending_one() {
    let mut reviews: Reviews<Plan, Outcome> = Reviews::new();
    let first = reviews.put(Plan("first"), 7);
    let second = reviews.put(Plan("second"), 7);
    assert_ne!(first, second);
    assert_eq!(first.len(), 36);
    assert!(reviews.take(&first, 7).is_none());
    assert_eq!(reviews.take(&second, 7), Some(Plan("second")));
}

#[test]
fn unsettled_results_cannot_be_acted_on() {
    let mut reviews: Reviews<Plan, Outcome> = Reviews::new();
    let id = reviews.put(Plan("z"), 3);
    let plan = reviews.take(&id, 3).unwrap();
    reviews.finish(id.clone(), 3, plan, Outcome { settled: false }, false);
    assert!(reviews.take_completed(&id, 3).is_none());
    let id = reviews.put(Plan("z"), 3);
    let plan = reviews.take(&id, 3).unwrap();
    reviews.finish(id.clone(), 3, plan, Outcome { settled: true }, true);
    assert_eq!(
        reviews.take_completed(&id, 3),
        Some((Plan("z"), Outcome { settled: true }))
    );
    // A new review clears a result that was not acted on.
    reviews.finish(id.clone(), 3, Plan("z"), Outcome { settled: true }, true);
    reviews.put(Plan("next"), 3);
    assert!(reviews.take_completed(&id, 3).is_none());
}
