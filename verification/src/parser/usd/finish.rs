//! The numbers that a stage only implies, worked out, and the requests with them.

use crate::arith;
use crate::arith::{compute, computes, over, times, Op};
use crate::math::{ONE, ZERO};
use crate::parser::ast;
use crate::parser::ast::{RequestView, RibRequest, ValueView};
use crate::parser::usd::convert;
use crate::parser::usd::convert::{DraftValueView, DraftView, Sum, Translation, TWO};
use vstd::prelude::*;

verus! {

/// Degrees in a radian.
pub const DEGREES: u64 = 0x404c_a5dc_1a63_c1f8;

/// The number that a question asks for.
pub open spec fn worked_out<F: Fn(Op, u64, u64) -> u64>(f: F, q: Sum) -> u64 {
    match q {
        Sum::FieldOfView { focal, aperture } => {
            let half = arith::quotient(f, aperture, arith::product(f, TWO, focal));
            let angle = arith::value(f, Op::ArcTangent, half, ZERO);
            arith::product(f, TWO, arith::product(f, angle, DEGREES))
        },
        Sum::Reciprocal(v) => arith::quotient(f, ONE, v),
        Sum::Power { intensity, exposure } => arith::product(
            f,
            intensity,
            match exposure {
                Some(e) => arith::value(f, Op::RealPower, TWO, e),
                None => ONE,
            },
        ),
    }
}

impl Sum {
    /// The number that the question asks for.
    pub fn work_out<F: Fn(Op, u64, u64) -> u64>(&self, f: &F) -> (r: u64)
        requires
            computes(*f),
        ensures
            r == worked_out(*f, *self),
    {
        match *self {
            Sum::FieldOfView { focal, aperture } => {
                let half: u64 = over(f, aperture, times(f, TWO, focal));
                let angle: u64 = compute(f, Op::ArcTangent, half, ZERO);
                times(f, TWO, times(f, angle, DEGREES))
            },
            Sum::Reciprocal(v) => over(f, ONE, v),
            Sum::Power { intensity, exposure } => {
                let factor: u64 = match exposure {
                    Some(e) => compute(f, Op::RealPower, TWO, e),
                    None => ONE,
                };
                times(f, intensity, factor)
            },
        }
    }
}

/// A value with its number worked out.
pub open spec fn finished_value<F: Fn(Op, u64, u64) -> u64>(f: F, v: DraftValueView) -> ValueView {
    match v {
        DraftValueView::Ready(v) => v,
        DraftValueView::Number(q) => ValueView::Number(worked_out(f, q)),
        DraftValueView::Numbers(q) => ValueView::Numbers(seq![worked_out(f, q)]),
    }
}

/// A draft with its numbers worked out.
pub open spec fn finished_request<F: Fn(Op, u64, u64) -> u64>(f: F, d: DraftView) -> RequestView {
    RequestView {
        name: d.name,
        values: d.values.map_values(|v: DraftValueView| finished_value(f, v)),
    }
}

/// Drafts with their numbers worked out.
pub open spec fn finished<F: Fn(Op, u64, u64) -> u64>(f: F, drafts: Seq<DraftView>) -> Seq<
    RequestView,
> {
    drafts.map_values(|d: DraftView| finished_request(f, d))
}

/// Whether every answer is the number that its question asks for.
spec fn are_worked_out<F: Fn(Op, u64, u64) -> u64>(f: F, answers: Seq<(Sum, u64)>) -> bool {
    forall|i: int|
        0 <= i < answers.len() ==> (#[trigger] answers[i]).1 == worked_out(f, answers[i].0)
}

proof fn answer_is_worked_out<F: Fn(Op, u64, u64) -> u64>(f: F, answers: Seq<(Sum, u64)>, q: Sum)
    requires
        are_worked_out(f, answers),
    ensures
        convert::answer_to(answers, q) matches Some(v) ==> v == worked_out(f, q),
    decreases answers.len(),
{
    if answers.len() > 0 && answers[0].0 != q {
        let rest = answers.drop_first();
        assert forall|i: int| 0 <= i < rest.len() implies (#[trigger] rest[i]).1 == worked_out(
            f,
            rest[i].0,
        ) by {
            assert(rest[i] == answers[i + 1]);
        }
        answer_is_worked_out(f, rest, q);
    }
}

/// A question that was answered has an answer.
proof fn answer_is_there(answers: Seq<(Sum, u64)>, k: int)
    requires
        0 <= k < answers.len(),
    ensures
        convert::answer_to(answers, answers[k].0) is Some,
    decreases answers.len(),
{
    if answers[0].0 != answers[k].0 {
        assert(answers.drop_first()[k - 1] == answers[k]);
        answer_is_there(answers.drop_first(), k - 1);
    }
}

proof fn settled_is_finished<F: Fn(Op, u64, u64) -> u64>(
    f: F,
    drafts: Seq<DraftView>,
    answers: Seq<(Sum, u64)>,
)
    requires
        convert::all_answered(drafts, answers),
        are_worked_out(f, answers),
    ensures
        convert::settled(drafts, answers) == finished(f, drafts),
{
    assert forall|i: int| 0 <= i < drafts.len() implies convert::settled_request(
        #[trigger] drafts[i],
        answers,
    ) == finished_request(f, drafts[i]) by {
        let values = drafts[i].values;
        assert(convert::values_answered(values, answers));
        assert forall|j: int| 0 <= j < values.len() implies convert::settled_value(
            #[trigger] values[j],
            answers,
        ) == finished_value(f, values[j]) by {
            if let Some(q) = convert::question(values[j]) {
                answer_is_worked_out(f, answers, q);
            }
        }
        assert(convert::settled_request(drafts[i], answers).values =~= finished_request(
            f,
            drafts[i],
        ).values);
    }
    assert(convert::settled(drafts, answers) =~= finished(f, drafts));
}

impl Translation {
    /// The requests, with the numbers that they leave open worked out.
    pub fn finish<F: Fn(Op, u64, u64) -> u64>(&self, f: &F) -> (r: Vec<RibRequest>)
        requires
            computes(*f),
        ensures
            ast::request_views(r@) == finished(*f, self@.drafts),
    {
        let questions: Vec<Sum> = self.questions();
        let n: usize = questions.len();
        let mut answers: Vec<(Sum, u64)> = Vec::new();
        let mut i: usize = 0;
        while i < n
            invariant
                i <= n == questions@.len(),
                computes(*f),
                answers@.len() == i,
                forall|k: int| 0 <= k < i ==> (#[trigger] answers@[k]).0 == questions@[k],
                are_worked_out(*f, answers@),
            decreases n - i,
        {
            let q: Sum = questions[i];
            answers.push((q, q.work_out(f)));
            i += 1;
        }
        proof {
            assert forall|q: Sum| #[trigger]
                convert::open_questions(self@.drafts).contains(q) implies convert::answer_to(
                answers@,
                q,
            ) is Some by {
                let k = questions@.index_of(q);
                assert(answers@[k].0 == q);
                answer_is_there(answers@, k);
            }
            convert::answers_suffice(self@.drafts, answers@);
            settled_is_finished(*f, self@.drafts, answers@);
        }
        match self.settle(&answers) {
            Some(requests) => requests,
            None => Vec::new(),
        }
    }
}

} // verus!
