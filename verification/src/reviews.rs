//! One-shot authorizations: a reviewed plan may run once, and a settled
//! result may be acted on once, both only on the controller session that
//! they were issued for.
use crate::text::{chars_of, same};
use crate::updates::random_token;
use vstd::prelude::*;

verus! {

/// The reviewed plan that may run, and the settled result that may be acted
/// on, each with its token and controller session.
pub struct Reviews<P, R> {
    pending: Option<(String, u64, P)>,
    completed: Option<(String, u64, P, R)>,
}

pub struct ReviewsView<P, R> {
    pub pending: Option<(Seq<char>, u64, P)>,
    pub completed: Option<(Seq<char>, u64, P, R)>,
}

impl<P, R> View for Reviews<P, R> {
    type V = ReviewsView<P, R>;

    closed spec fn view(&self) -> ReviewsView<P, R> {
        ReviewsView {
            pending: match self.pending {
                Some((t, s, p)) => Some((t@, s, p)),
                None => None,
            },
            completed: match self.completed {
                Some((t, s, p, r)) => Some((t@, s, p, r)),
                None => None,
            },
        }
    }
}

/// Whether an authorization with `token` on `session` matches the request.
pub open spec fn matches(token: Seq<char>, session: u64, id: Seq<char>, current: u64) -> bool {
    token == id && session == current
}

/// Taking the pending plan: it is handed out once, and only for its token
/// and session; otherwise nothing changes.
pub open spec fn take_spec<P, R>(v: ReviewsView<P, R>, id: Seq<char>, session: u64) -> (
    ReviewsView<P, R>,
    Option<P>,
) {
    match v.pending {
        Some((t, s, p)) => if matches(t, s, id, session) {
            (ReviewsView { pending: None, ..v }, Some(p))
        } else {
            (v, None)
        },
        None => (v, None),
    }
}

/// Taking the completed result, with the plan it came from.
pub open spec fn take_completed_spec<P, R>(v: ReviewsView<P, R>, id: Seq<char>, session: u64) -> (
    ReviewsView<P, R>,
    Option<(P, R)>,
) {
    match v.completed {
        Some((t, s, p, r)) => if matches(t, s, id, session) {
            (ReviewsView { completed: None, ..v }, Some((p, r)))
        } else {
            (v, None)
        },
        None => (v, None),
    }
}

/// Recording a finished action: only a settled result stays available.
pub open spec fn finish_spec<P, R>(
    v: ReviewsView<P, R>,
    id: Seq<char>,
    session: u64,
    plan: P,
    result: R,
    settled: bool,
) -> ReviewsView<P, R> {
    if settled {
        ReviewsView { completed: Some((id, session, plan, result)), ..v }
    } else {
        v
    }
}

impl<P, R> Default for Reviews<P, R> {
    /// No plan under review and no result.
    fn default() -> (r: Self)
        ensures
            r@.pending is None,
            r@.completed is None,
    {
        Reviews::new()
    }
}

impl<P, R> Reviews<P, R> {
    /// No plan under review and no result.
    pub fn new() -> (r: Self)
        ensures
            r@.pending is None,
            r@.completed is None,
    {
        Reviews { pending: None, completed: None }
    }

    /// Stores a reviewed plan under a fresh 36-character token, which it returns; the
    /// plan replaces any earlier one and clears the completed result.
    pub fn put(&mut self, plan: P, session: u64) -> (id: String)
        ensures
            final(self)@.pending == Some((id@, session, plan)),
            final(self)@.completed is None,
            id@.len() == 36,
    {
        let id = random_token();
        self.pending = Some((id.clone(), session, plan));
        self.completed = None;
        id
    }

    /// Hands out the pending plan once, for its token and session.
    pub fn take(&mut self, id: &str, session: u64) -> (r: Option<P>)
        ensures
            (final(self)@, r) == take_spec(old(self)@, id@, session),
    {
        let hit = match &self.pending {
            Some((token, s, _)) => *s == session && same(
                &chars_of(token.as_str()),
                &chars_of(id),
            ),
            None => false,
        };
        if hit {
            match self.pending.take() {
                Some((_, _, plan)) => Some(plan),
                None => None,
            }
        } else {
            None
        }
    }

    /// Keeps a settled result, with its plan, for one later action.
    pub fn finish(&mut self, id: String, session: u64, plan: P, result: R, settled: bool)
        ensures
            final(self)@ == finish_spec(old(self)@, id@, session, plan, result, settled),
    {
        if settled {
            self.completed = Some((id, session, plan, result));
        }
    }

    /// Hands out the completed result once, for its token and session.
    pub fn take_completed(&mut self, id: &str, session: u64) -> (r: Option<(P, R)>)
        ensures
            (final(self)@, r) == take_completed_spec(old(self)@, id@, session),
    {
        let hit = match &self.completed {
            Some((token, s, _, _)) => *s == session && same(
                &chars_of(token.as_str()),
                &chars_of(id),
            ),
            None => false,
        };
        if hit {
            match self.completed.take() {
                Some((_, _, plan, result)) => Some((plan, result)),
                None => None,
            }
        } else {
            None
        }
    }
}

/// An authorization is one-shot: after a plan has been handed out, asking
/// again with the same token gets nothing.
pub proof fn lemma_take_is_one_shot<P, R>(v: ReviewsView<P, R>, id: Seq<char>, session: u64)
    ensures
        take_spec(v, id, session).1 is Some ==> take_spec(take_spec(v, id, session).0, id, session).1 is None,
        take_completed_spec(v, id, session).1 is Some ==> take_completed_spec(
            take_completed_spec(v, id, session).0,
            id,
            session,
        ).1 is None,
{
}

/// An authorization is bound to its controller session: after a reconnect
/// the token gets nothing and stays unused.
pub proof fn lemma_take_needs_session<P, R>(
    v: ReviewsView<P, R>,
    id: Seq<char>,
    session: u64,
    other: u64,
)
    requires
        v.pending matches Some((t, s, p)) && s == session,
        other != session,
    ensures
        take_spec(v, id, other) == (v, None::<P>),
{
}

/// A new review invalidates the previous token and any completed result.
pub proof fn lemma_new_review_invalidates<P, R>(
    plan: P,
    id: Seq<char>,
    session: u64,
    old_id: Seq<char>,
    any_session: u64,
)
    requires
        old_id != id,
    ensures
        take_spec(ReviewsView::<P, R> { pending: Some((id, session, plan)), completed: None }, old_id, any_session).1 is None,
        take_completed_spec(ReviewsView::<P, R> { pending: Some((id, session, plan)), completed: None }, old_id, any_session).1 is None,
{
}

} // verus!
