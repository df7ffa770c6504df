//! The course of a text-to-SQL request: which failures end it, which are answered
//! by another statement, and with which reply it ends.
use vstd::prelude::*;

use crate::nsql::prompt::{FailedAttempt, QueryGenerationContext};
use crate::nsql::sql;
use crate::nsql::sql::clean_model_based_sql;
use crate::numeral;
use crate::numeral::decimal_text;
use crate::text;

verus! {

/// A reply: its HTTP status and its body.
#[derive(Debug)]
pub struct Reply {
    pub status: u16,
    pub body: String,
}

/// The reply to a request that was cancelled: that its time is up, or that it was
/// cancelled.
pub open spec fn is_cancel_reply(r: Reply, past_deadline: bool, budget_secs: u64) -> bool {
    if past_deadline {
        r.status == 504 && r.body@ == "NSQL request exceeded its "@ + numeral::decimal(
            budget_secs as nat,
        ) + "s time budget (SPICE_NSQL_BUDGET_SECS)"@
    } else {
        r.status == 499 && r.body@ == "NSQL request cancelled"@
    }
}

/// The reply to a request that was cancelled.
pub fn nsql_cancel_outcome(past_deadline: bool, budget_secs: u64) -> (r: Reply)
    ensures
        is_cancel_reply(r, past_deadline, budget_secs),
{
    if past_deadline {
        let mut body = "NSQL request exceeded its ".to_owned();
        body.push_str(decimal_text(budget_secs).as_str());
        body.push_str("s time budget (SPICE_NSQL_BUDGET_SECS)");
        Reply { status: 504, body }
    } else {
        Reply { status: 499, body: "NSQL request cancelled".to_owned() }
    }
}

/// What happened to a request.
#[derive(Debug)]
pub enum Event {
    /// It was cancelled, by its deadline or otherwise.
    Cancelled { past_deadline: bool },
    /// No request to the model could be made.
    RequestFailed,
    /// The model failed.
    ModelFailed(String),
    /// The model returned nothing.
    NoQuery,
    /// What the model returned could not be read.
    ResponseRejected(String),
    /// The model returned a statement.
    Generated(String),
    /// The statement, as it was run, failed.
    QueryFailed { query: String, error: String },
}

/// What to do next.
#[derive(Debug)]
pub enum Action {
    /// Ask the model, with all that failed so far.
    AskModel,
    /// Run a statement.
    Run(String),
    /// End the request.
    Respond(Reply),
}

/// A request under way.
#[derive(Debug)]
pub struct NsqlRun {
    /// What the model is told.
    pub context: QueryGenerationContext,
    pub num_retries: u8,
    pub max_retries: u8,
    pub budget_secs: u64,
    /// Whether the statement is returned and not run.
    pub sql_only: bool,
}

/// Whether an action is a reply of that status and body.
pub open spec fn replies(a: Action, status: u16, body: Seq<char>) -> bool {
    a matches Action::Respond(r) && r.status == status && r.body@ == body
}

impl NsqlRun {
    pub fn new(
        context: QueryGenerationContext,
        max_retries: u8,
        budget_secs: u64,
        sql_only: bool,
    ) -> (r: Self)
        ensures
            r.context == context,
            r.num_retries == 0,
            r.max_retries == max_retries,
            r.budget_secs == budget_secs,
            r.sql_only == sql_only,
    {
        NsqlRun { context, num_retries: 0, max_retries, budget_secs, sql_only }
    }

    /// Whether a statement that failed is written anew.
    pub open spec fn may_retry(self) -> bool {
        self.num_retries < self.max_retries
    }

    /// Nothing changed but the failures that were taken down.
    pub open spec fn same_but_failures(self, other: NsqlRun) -> bool {
        &&& self.max_retries == other.max_retries
        &&& self.budget_secs == other.budget_secs
        &&& self.sql_only == other.sql_only
        &&& self.context.semantic_search_tables == other.context.semantic_search_tables
        &&& self.context.reranker == other.context.reranker
        &&& self.context.graph_datasets == other.context.graph_datasets
        &&& self.context.graph_hint == other.context.graph_hint
        &&& self.context.search_only_tables == other.context.search_only_tables
    }

    /// How an event is answered: what goes on, and what a request ends with.
    pub open spec fn answers(self, event: Event, next: NsqlRun, action: Action) -> bool {
        match event {
            Event::QueryFailed { query, error } => if self.num_retries < self.max_retries {
                action is AskModel && self.leads_to(
                    next,
                    FailedAttempt { attempted_query: query, error_message: error },
                )
            } else {
                next == self && replies(action, 400, error@)
            },
            Event::Generated(q) => next == self && match action {
                Action::Run(s) => !self.sql_only && s@ == sql::cleaned(q@),
                Action::Respond(reply) => self.sql_only && reply.status == 200 && reply.body@
                    == sql::cleaned(q@),
                Action::AskModel => false,
            },
            Event::Cancelled { past_deadline } => next == self && (action matches Action::Respond(
                reply,
            ) && is_cancel_reply(reply, past_deadline, self.budget_secs)),
            Event::ModelFailed(e) | Event::ResponseRejected(e) => next == self && replies(
                action,
                500,
                e@,
            ),
            Event::RequestFailed | Event::NoQuery => next == self && (action matches Action::Respond(
                reply,
            ) && reply.status == 500),
        }
    }

    /// A failure of this request led to another question to the model.
    pub open spec fn leads_to(self, next: NsqlRun, failure: FailedAttempt) -> bool {
        &&& self.may_retry()
        &&& next.num_retries == self.num_retries + 1
        &&& next.same_but_failures(self)
        &&& next.context.failed_attempts@ == self.context.failed_attempts@.push(failure)
    }

    /// Takes in what happened and says what to do next. Only a statement that failed
    /// while retries are left leads to another question to the model; its failure is
    /// taken down for the model to read.
    pub fn step(&mut self, event: Event) -> (r: Action)
        ensures
            match event {
                Event::Cancelled { past_deadline } => *final(self) == *old(self) && (r
                    matches Action::Respond(reply) && is_cancel_reply(
                    reply,
                    past_deadline,
                    old(self).budget_secs,
                )),
                Event::RequestFailed => *final(self) == *old(self) && replies(
                    r,
                    500,
                    "Error preparing data for NQL model"@,
                ),
                Event::ModelFailed(e) => *final(self) == *old(self) && replies(r, 500, e@),
                Event::NoQuery => *final(self) == *old(self) && replies(
                    r,
                    500,
                    "No query produced from NSQL model"@,
                ),
                Event::ResponseRejected(e) => *final(self) == *old(self) && replies(r, 500, e@),
                Event::Generated(q) => *final(self) == *old(self) && if old(self).sql_only {
                    replies(r, 200, sql::cleaned(q@))
                } else {
                    r matches Action::Run(s) && s@ == sql::cleaned(q@)
                },
                Event::QueryFailed { query, error } => if old(self).may_retry() {
                    r is AskModel && old(self).leads_to(
                        *final(self),
                        FailedAttempt { attempted_query: query, error_message: error },
                    )
                } else {
                    *final(self) == *old(self) && replies(r, 400, error@)
                },
            },
            old(self).answers(event, *final(self), r),
    {
        match event {
            Event::Cancelled { past_deadline } => Action::Respond(
                nsql_cancel_outcome(past_deadline, self.budget_secs),
            ),
            Event::RequestFailed => Action::Respond(
                Reply { status: 500, body: "Error preparing data for NQL model".to_owned() },
            ),
            Event::ModelFailed(e) => Action::Respond(Reply { status: 500, body: e }),
            Event::NoQuery => Action::Respond(
                Reply { status: 500, body: "No query produced from NSQL model".to_owned() },
            ),
            Event::ResponseRejected(e) => Action::Respond(Reply { status: 500, body: e }),
            Event::Generated(q) => {
                let cleaned = clean_model_based_sql(q.as_str());
                if self.sql_only {
                    Action::Respond(Reply { status: 200, body: cleaned })
                } else {
                    Action::Run(cleaned)
                }
            },
            Event::QueryFailed { query, error } => {
                if self.num_retries >= self.max_retries {
                    Action::Respond(Reply { status: 400, body: error })
                } else {
                    self.num_retries = self.num_retries + 1;
                    self.context.failed_attempts.push(FailedAttempt::new(query, error));
                    Action::AskModel
                }
            },
        }
    }
}

/// A request on its way from question to question, each after a failure.
pub open spec fn goes_through(runs: Seq<NsqlRun>, failures: Seq<FailedAttempt>) -> bool {
    runs.len() == failures.len() + 1 && forall|i: int|
        0 <= i < failures.len() ==> (#[trigger] runs[i]).leads_to(runs[i + 1], failures[i])
}

/// However many statements fail, a request asks the model again at most as often as
/// it may retry; and the model is told every failure, in order, and nothing else
/// that is new.
pub proof fn law_questions_are_bounded(runs: Seq<NsqlRun>, failures: Seq<FailedAttempt>)
    requires
        goes_through(runs, failures),
    ensures
        runs.last().num_retries == runs[0].num_retries + failures.len(),
        failures.len() > 0 ==> runs.last().num_retries <= runs[0].max_retries,
        runs.last().context.failed_attempts@ == runs[0].context.failed_attempts@ + failures,
        runs.last().same_but_failures(runs[0]),
    decreases failures.len(),
{
    if failures.len() > 0 {
        let before = failures.drop_last();
        let front = runs.drop_last();
        let n = before.len() as int;
        assert forall|i: int| 0 <= i < before.len() implies (#[trigger] front[i]).leads_to(
            front[i + 1],
            before[i],
        ) by {
            assert(runs[i].leads_to(runs[i + 1], failures[i]));
        }
        law_questions_are_bounded(front, before);
        assert(runs[n].leads_to(runs[n + 1], failures[n]));
        assert(front.last() == runs[n]);
        assert(before.push(failures[n]) == failures);
        assert(runs[0].context.failed_attempts@ + failures == (
        runs[0].context.failed_attempts@ + before).push(failures[n]));
    } else {
        assert(runs[0].context.failed_attempts@ + failures
            == runs[0].context.failed_attempts@);
    }
}

/// A failed statement is answered by another question exactly while there are some left,
/// and the next question knows of the failure; nothing else of the request changes.
pub proof fn law_failures_are_told(run: NsqlRun, next: NsqlRun, failure: FailedAttempt)
    ensures
        run.may_retry() <==> run.num_retries < run.max_retries,
        run.leads_to(next, failure) ==> {
            &&& run.num_retries < run.max_retries
            &&& next.num_retries == run.num_retries + 1 && next.max_retries == run.max_retries
            &&& next.context.failed_attempts.len() == run.context.failed_attempts.len() + 1
            &&& next.context.failed_attempts@.last() == failure
            &&& next.context.failed_attempts@.drop_last() == run.context.failed_attempts@
            &&& next.context.graph_datasets == run.context.graph_datasets
            &&& next.context.graph_hint == run.context.graph_hint
            &&& next.context.reranker == run.context.reranker
            &&& next.context.semantic_search_tables == run.context.semantic_search_tables
            &&& next.context.search_only_tables == run.context.search_only_tables
            &&& next.sql_only == run.sql_only && next.budget_secs == run.budget_secs
        },
{
    if run.leads_to(next, failure) {
        assert(next.context.failed_attempts@.drop_last() =~= run.context.failed_attempts@);
    }
}

/// A request that ran out of its time is answered by a timeout that names the time; one
/// that was given up otherwise is answered as cancelled.
pub proof fn law_cancelled_requests_say_why(r: Reply, budget_secs: u64)
    ensures
        is_cancel_reply(r, true, budget_secs) ==> r.status == 504 && text::contains(
            r.body@,
            numeral::decimal(budget_secs as nat),
        ),
        is_cancel_reply(r, false, budget_secs) ==> r.status == 499,
{
    reveal_strlit("NSQL request exceeded its ");
    if is_cancel_reply(r, true, budget_secs) {
        let d = numeral::decimal(budget_secs as nat);
        let k = "NSQL request exceeded its "@.len() as int;
        assert(r.body@.subrange(k, k + d.len()) =~= d);
        assert(text::stands_at(r.body@, d, k));
    }
}

/// A request runs what the model wrote, cleaned, or answers with it where only the SQL is
/// asked for; it asks again only after a statement failed, and only while it may; and in
/// the end the error of the last statement is the answer.
pub proof fn law_course_of_a_request(run: NsqlRun, event: Event, next: NsqlRun, action: Action)
    requires
        run.answers(event, next, action),
    ensures
        action matches Action::Run(s) ==> (event matches Event::Generated(q) && s@ == sql::cleaned(
            q@,
        )) && !run.sql_only,
        action is AskModel ==> event is QueryFailed && run.num_retries < run.max_retries
            && next.num_retries == run.num_retries + 1,
        !(action is AskModel) ==> next == run,
        event matches Event::Generated(q) ==> run.sql_only ==> (action matches Action::Respond(reply)
            && reply.status == 200 && reply.body@ == sql::cleaned(q@)),
        event matches Event::Generated(q) ==> !run.sql_only ==> action is Run,
        event matches Event::QueryFailed { query, error } ==> run.num_retries < run.max_retries
            ==> action is AskModel && next.context.failed_attempts@.last()
            == (FailedAttempt { attempted_query: query, error_message: error }),
        event matches Event::QueryFailed { query, error } ==> run.num_retries >= run.max_retries
            ==> (action matches Action::Respond(reply) && reply.status == 400 && reply.body@
            == error@),
        event matches Event::ModelFailed(e) ==> (action matches Action::Respond(reply)
            && reply.status == 500 && reply.body@ == e@),
        event matches Event::ResponseRejected(e) ==> (action matches Action::Respond(reply)
            && reply.status == 500 && reply.body@ == e@),
        event is NoQuery || event is RequestFailed ==> (action matches Action::Respond(reply)
            && reply.status == 500),
        event matches Event::Cancelled { past_deadline } ==> (action matches Action::Respond(reply)
            && reply.status == if past_deadline {
            504u16
        } else {
            499u16
        }),
{
    if let Event::QueryFailed { query, error } = event {
        if run.num_retries < run.max_retries {
            law_failures_are_told(
                run,
                next,
                FailedAttempt { attempted_query: query, error_message: error },
            );
        }
    }
}

} // verus!
