//! Read-back: turn on-device annotations into Readwise operations.
pub mod classify;

use vstd::prelude::*;

use crate::readback::classify::Plan;
use crate::readwise::{
    action_outcome, action_outcome_fits, action_request, action_request_spec, highlights_body,
    highlights_outcome, highlights_outcome_fits, highlights_request, highlights_url, request_view,
    send, ActionKind, ApiRequest, HttpMethod, HttpTransport, ReadwiseError,
};
use crate::text::{chars_of, string_of};

verus! {

/// An operation of a plan that failed.
#[derive(Debug)]
pub enum ExecIssue {
    Action { id: String, kind: ActionKind, error: ReadwiseError },
    Highlights { error: ReadwiseError },
}

/// An issue as the failed action (`None` for the highlights) and its error.
pub open spec fn issue_view(i: ExecIssue) -> (Option<(Seq<char>, ActionKind)>, ReadwiseError) {
    match i {
        ExecIssue::Action { id, kind, error } => (Some((id@, kind)), error),
        ExecIssue::Highlights { error } => (None, error),
    }
}

pub open spec fn issues_view(v: Seq<ExecIssue>) -> Seq<(Option<(Seq<char>, ActionKind)>, ReadwiseError)> {
    v.map_values(|i: ExecIssue| issue_view(i))
}

/// The requests that apply a plan: per action, in order, a delete or a move
/// to the action's location; then one request with all the highlights, when
/// there are any.
pub open spec fn plan_requests_spec(plan: Plan) -> Seq<(HttpMethod, Seq<char>, Option<Seq<char>>)> {
    plan.actions@.map_values(
        |a: (String, ActionKind)| action_request_spec(a.0@, a.1),
    ) + if plan.highlights@.len() > 0 {
        seq![(HttpMethod::Post, highlights_url(), Some(highlights_body(plan.highlights@)))]
    } else {
        Seq::empty()
    }
}

pub fn plan_requests(plan: &Plan) -> (r: Vec<ApiRequest>)
    ensures
        r@.map_values(|q: ApiRequest| request_view(q)) == plan_requests_spec(*plan),
{
    let mut r: Vec<ApiRequest> = Vec::new();
    let mut i: usize = 0;
    while i < plan.actions.len()
        invariant
            i <= plan.actions.len(),
            r@.len() == i,
            forall|k: int|
                0 <= k < i ==> request_view(#[trigger] r@[k]) == action_request_spec(
                    plan.actions@[k].0@,
                    plan.actions@[k].1,
                ),
        decreases plan.actions.len() - i,
    {
        let (id, kind) = &plan.actions[i];
        r.push(action_request(id.as_str(), *kind));
        i = i + 1;
    }
    if plan.highlights.len() > 0 {
        let h = highlights_request(plan.highlights.as_slice());
        assert(request_view(h) == (HttpMethod::Post, highlights_url(), Some(highlights_body(plan.highlights@))));
        r.push(h);
    }
    assert(r@.map_values(|q: ApiRequest| request_view(q)) =~= plan_requests_spec(*plan));
    r
}

/// The failed actions among the first `k`, in order, with their errors.
pub open spec fn action_issues(
    actions: Seq<(String, ActionKind)>,
    outcomes: Seq<Result<(), ReadwiseError>>,
    k: int,
) -> Seq<(Option<(Seq<char>, ActionKind)>, ReadwiseError)>
    decreases k,
{
    if k <= 0 {
        Seq::empty()
    } else {
        let prev = action_issues(actions, outcomes, k - 1);
        match outcomes[k - 1] {
            Err(e) => prev.push((Some((actions[k - 1].0@, actions[k - 1].1)), e)),
            Ok(()) => prev,
        }
    }
}

/// The issues of a plan whose requests (see [`plan_requests_spec`]) came out
/// as `outcomes`: each failed action, in order, then the highlights when
/// their request failed.
pub open spec fn issues_spec(plan: Plan, outcomes: Seq<Result<(), ReadwiseError>>) -> Seq<
    (Option<(Seq<char>, ActionKind)>, ReadwiseError),
> {
    let n = plan.actions@.len() as int;
    let a = action_issues(plan.actions@, outcomes, n);
    if outcomes.len() > n && outcomes[n] is Err {
        a.push((None, outcomes[n]->Err_0))
    } else {
        a
    }
}

/// The issues for the outcomes of a plan's requests.
pub fn issues_from(plan: &Plan, outcomes: Vec<Result<(), ReadwiseError>>) -> (r: Vec<ExecIssue>)
    requires
        outcomes@.len() >= plan.actions@.len(),
    ensures
        issues_view(r@) == issues_spec(*plan, outcomes@),
{
    let ghost ov = outcomes@;
    let n = plan.actions.len();
    let mut rest = outcomes;
    let mut issues: Vec<ExecIssue> = Vec::new();
    let mut i: usize = 0;
    while i < n
        invariant
            i <= n,
            n == plan.actions@.len(),
            ov.len() >= n,
            rest@ == ov.skip(i as int),
            issues_view(issues@) == action_issues(plan.actions@, ov, i as int),
        decreases n - i,
    {
        let o = rest.remove(0);
        assert(o == ov[i as int]);
        assert(ov.skip(i as int).remove(0) =~= ov.skip(i + 1));
        match o {
            Err(e) => {
                let (id, kind) = &plan.actions[i];
                issues.push(ExecIssue::Action { id: string_of(&chars_of(id.as_str())), kind: *kind, error: e });
                assert(issues_view(issues@) =~= action_issues(plan.actions@, ov, i as int).push(
                    (Some((plan.actions@[i as int].0@, plan.actions@[i as int].1)), ov[i as int]->Err_0),
                ));
            },
            Ok(()) => {},
        }
        i = i + 1;
    }
    if rest.len() > 0 {
        let o = rest.remove(0);
        assert(o == ov[n as int]);
        match o {
            Err(e) => {
                issues.push(ExecIssue::Highlights { error: e });
                assert(issues_view(issues@) =~= action_issues(plan.actions@, ov, n as int).push(
                    (None, ov[n as int]->Err_0),
                ));
            },
            Ok(()) => {},
        }
    }
    issues
}

/// Apply a read-back plan: send [`plan_requests`] in order, judge each answer
/// ([`action_outcome`], [`highlights_outcome`]) and report the failures
/// ([`issues_from`]). Best effort: a failing request does not stop the
/// others. What the transport answers is its own; whatever it answers, every
/// request has an outcome of its kind and the issues are exactly the failed
/// ones, in order.
pub fn execute<T: HttpTransport + ?Sized>(t: &T, token: &str, plan: &Plan) -> (r: Vec<ExecIssue>)
    ensures
        exists|outcomes: Seq<Result<(), ReadwiseError>>|
            {
                &&& outcomes.len() == plan_requests_spec(*plan).len()
                &&& forall|k: int|
                    0 <= k < plan.actions@.len() ==> action_outcome_fits(
                        plan.actions@[k].0@,
                        plan.actions@[k].1,
                        #[trigger] outcomes[k],
                    )
                &&& (plan.highlights@.len() > 0 ==> highlights_outcome_fits(
                    outcomes[plan.actions@.len() as int],
                ))
                &&& issues_view(r@) == #[trigger] issues_spec(*plan, outcomes)
            },
{
    let reqs = plan_requests(plan);
    let ghost rv = reqs@.map_values(|q: ApiRequest| request_view(q));
    assert(rv.len() == reqs@.len());
    let n = plan.actions.len();
    let mut outcomes: Vec<Result<(), ReadwiseError>> = Vec::new();
    let mut k: usize = 0;
    while k < reqs.len()
        invariant
            k <= reqs.len(),
            reqs@.len() == plan_requests_spec(*plan).len(),
            n == plan.actions@.len(),
            outcomes@.len() == k,
            forall|j: int|
                0 <= j < k && j < n ==> action_outcome_fits(
                    plan.actions@[j].0@,
                    plan.actions@[j].1,
                    #[trigger] outcomes@[j],
                ),
            forall|j: int| 0 <= j < k && j >= n ==> highlights_outcome_fits(#[trigger] outcomes@[j]),
        decreases reqs.len() - k,
    {
        let answer = send(t, token, &reqs[k]);
        let o = if k < n {
            let (id, kind) = &plan.actions[k];
            action_outcome(id.as_str(), *kind, answer)
        } else {
            highlights_outcome(answer)
        };
        outcomes.push(o);
        k = k + 1;
    }
    let ghost ov = outcomes@;
    let issues = issues_from(plan, outcomes);
    proof {
        if plan.highlights@.len() > 0 {
            assert(ov.len() > n);
        }
    }
    issues
}

} // verus!
