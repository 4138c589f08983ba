//! Trying out an expression for the decision on given cases.

use std::sync::Arc;

use vstd::prelude::*;
use vstd::string::StringExecFns;

use crate::depeg_v2::evaluation::build_decision_context;
use crate::depeg_v2::evaluation::decision_variables;
use crate::depeg_v2::evaluation::DecisionExpressionTestInputs;
use crate::expression::bindings;
use crate::expression::compile;
use crate::expression::evaluate;
use crate::expression::failure_text;
use crate::expression::may_reply;
use crate::expression::reply_text;
use crate::expression::source_of;
use crate::expression::Answer;
use crate::expression::Reply;
use crate::expression::ReplyView;
use crate::text::text_option;
use crate::text::trim;
use crate::text::trimmed;

verus! {

/// A case to try an expression on, and what it is expected to give.
#[derive(Clone, Debug)]
pub struct DecisionExpressionTestCase {
    pub name: String,
    pub inputs: DecisionExpressionTestInputs,
    pub expected: Option<bool>,
}

/// An expression and the cases to try it on.
#[derive(Clone, Debug)]
pub struct DecisionExpressionTestRequest {
    pub decision_expression: String,
    pub test_cases: Vec<DecisionExpressionTestCase>,
}

/// What an expression gave on a case: a truth value, or why it gave none. Where a value was
/// expected and one was given, `passed` says whether they agree.
#[derive(Clone, Debug)]
pub struct DecisionExpressionTestCaseResult {
    pub name: String,
    pub fired: Option<bool>,
    pub passed: Option<bool>,
    pub error: Option<String>,
}

/// What an expression gave on the cases, or why it is none.
#[derive(Clone, Debug)]
pub struct DecisionExpressionTestResponse {
    pub compilation_error: Option<String>,
    pub results: Vec<DecisionExpressionTestCaseResult>,
}

/// What is said of a value that is no truth value.
pub open spec fn not_a_decision(shown: Seq<char>) -> Seq<char> {
    "expression returned a non-bool result ("@ + shown
        + "); CEL decision expressions must evaluate to a boolean"@
}

/// Whether `r` is the result of a case whose expression replied `reply`, shown as `told`.
pub open spec fn result_of(
    case: DecisionExpressionTestCase,
    reply: ReplyView,
    told: Seq<char>,
    r: DecisionExpressionTestCaseResult,
) -> bool {
    let fired = match reply {
        ReplyView::Bool(b) => Some(b),
        _ => None,
    };
    &&& r.name@ == case.name@
    &&& r.fired == fired
    &&& r.passed == match (case.expected, fired) {
        (Some(expected), Some(actual)) => Some(actual == expected),
        _ => None,
    }
    &&& text_option(r.error) == match reply {
        ReplyView::Bool(_) => None,
        ReplyView::Failure => Some(told),
        _ => Some(not_a_decision(told)),
    }
}

/// The result of a case whose expression has replied.
pub fn judge_case(case: &DecisionExpressionTestCase, reply: &Reply) -> (r:
    DecisionExpressionTestCaseResult)
    ensures
        result_of(*case, reply@, reply_text(*reply), r),
{
    let (fired, error): (Option<bool>, Option<String>) = match reply {
        Reply::Value { answer: Answer::Bool(b), shown: _ } => (Some(*b), None),
        Reply::Value { answer: _, shown } => {
            let mut text = "expression returned a non-bool result (".to_owned();
            text.append(shown.as_str());
            text.append("); CEL decision expressions must evaluate to a boolean");
            (None, Some(text))
        },
        Reply::Failure { message } => (None, Some(message.clone())),
    };
    let passed: Option<bool> = match (case.expected, fired) {
        (Some(expected), Some(actual)) => Some(actual == expected),
        _ => None,
    };
    DecisionExpressionTestCaseResult { name: case.name.clone(), fired, passed, error }
}

/// Whether `r` is what an expression may give on a case.
pub open spec fn may_result(
    source: Seq<char>,
    case: DecisionExpressionTestCase,
    r: DecisionExpressionTestCaseResult,
) -> bool {
    exists|reply: ReplyView, told: Seq<char>|
        may_reply(source, bindings(decision_variables(case.inputs)), reply, told) && result_of(
            case,
            reply,
            told,
            r,
        )
}

/// Tries an expression on cases, each of them for itself. One that is blank or does not
/// compile is tried on none.
pub fn run_decision_expression_test(request: DecisionExpressionTestRequest) -> (r:
    DecisionExpressionTestResponse)
    ensures
        ({
            let source = trimmed(request.decision_expression@);
            if source.len() == 0 {
                &&& text_option(r.compilation_error) == Some("decision_expression must not be empty"@)
                &&& r.results@.len() == 0
            } else if failure_text(source) is Some {
                &&& text_option(r.compilation_error) == failure_text(source)
                &&& r.results@.len() == 0
            } else {
                &&& r.compilation_error is None
                &&& r.results@.len() == request.test_cases@.len()
                &&& forall|i: int|
                    0 <= i < r.results@.len() ==> may_result(
                        source,
                        request.test_cases@[i],
                        #[trigger] r.results@[i],
                    )
            }
        }),
{
    let source: String = trim(request.decision_expression.as_str());
    if source.as_str().is_empty() {
        return DecisionExpressionTestResponse {
            compilation_error: Some("decision_expression must not be empty".to_owned()),
            results: Vec::new(),
        };
    }
    let program: Arc<cel::Program> = match compile(source.as_str()) {
        Ok(program) => program,
        Err(message) => {
            return DecisionExpressionTestResponse {
                compilation_error: Some(message),
                results: Vec::new(),
            };
        },
    };
    let cases: &Vec<DecisionExpressionTestCase> = &request.test_cases;
    let mut results: Vec<DecisionExpressionTestCaseResult> = Vec::new();
    let mut i: usize = 0;
    while i < cases.len()
        invariant
            i <= cases.len(),
            results.len() == i,
            source_of(*program) == source@,
            forall|k: int|
                0 <= k < i ==> may_result(source@, cases@[k], #[trigger] results@[k]),
        decreases cases.len() - i,
    {
        let reply: Reply = evaluate(&program, &build_decision_context(&cases[i].inputs));
        let result: DecisionExpressionTestCaseResult = judge_case(&cases[i], &reply);
        assert(may_reply(
            source@,
            bindings(decision_variables(cases@[i as int].inputs)),
            reply@,
            reply_text(reply),
        ));
        assert(may_result(source@, cases@[i as int], result));
        results.push(result);
        i = i + 1;
    }
    DecisionExpressionTestResponse { compilation_error: None, results }
}

/// A case has fired as the expression said, where that is a truth value; it has passed exactly
/// where that was expected, and has an error exactly where the reply is no truth value.
pub proof fn law_cases_pass_as_expected(
    case: DecisionExpressionTestCase,
    reply: ReplyView,
    told: Seq<char>,
    r: DecisionExpressionTestCaseResult,
    said: bool,
    expected: bool,
)
    requires
        result_of(case, reply, told, r),
    ensures
        r.name@ == case.name@,
        reply == ReplyView::Bool(said) ==> r.fired == Some(said) && r.error is None,
        reply == ReplyView::Bool(said) && case.expected == Some(expected) ==> r.passed == Some(
            said == expected,
        ),
        case.expected is None ==> r.passed is None,
        !(reply is Bool) ==> r.fired is None && r.passed is None && r.error is Some,
        reply is Failure ==> text_option(r.error) == Some(told),
{
}

} // verus!
