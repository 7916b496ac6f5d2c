//! The answer a visitor gives for each item it is shown.
use vstd::prelude::*;

verus! {

/// A signal to return a value or to continue iterating.
pub enum Do<R> {
    Take(R),
    Nothing,
}

impl<R> Do<R> {
    /// The value that was taken, if any.
    pub open spec fn taken(self) -> Option<R> {
        match self {
            Do::Take(value) => Some(value),
            Do::Nothing => None,
        }
    }
}

/// The values taken from a run of answers, in order.
pub open spec fn all_taken<R>(answers: Seq<Do<R>>) -> Seq<R> {
    answers.filter_map(|answer: Do<R>| answer.taken())
}

/// `answers` is what `visitor` may answer when shown `items` one by one.
pub open spec fn answers_of<A, R, F: Fn(&A) -> Do<R>>(
    visitor: F,
    items: Seq<A>,
    answers: Seq<Do<R>>,
) -> bool {
    &&& answers.len() == items.len()
    &&& forall|i: int|
        0 <= i < items.len() ==> visitor.ensures((&#[trigger] items[i],), answers[i])
}

/// `visitor` may be shown every one of `items`.
pub open spec fn accepts_all<A, R, F: Fn(&A) -> R>(visitor: F, items: Seq<A>) -> bool {
    forall|i: int| 0 <= i < items.len() ==> visitor.requires((&#[trigger] items[i],))
}

/// What a first-match scan over `items` may return: the value taken at the
/// first item where the visitor does not answer `Nothing`, or `None` when it
/// answers `Nothing` everywhere.
pub open spec fn first_taken<A, R, F: Fn(&A) -> Do<R>>(
    visitor: F,
    items: Seq<A>,
    found: Option<R>,
) -> bool {
    match found {
        Some(value) => exists|k: int|
            {
                &&& 0 <= k < items.len()
                &&& visitor.ensures((&#[trigger] items[k],), Do::Take(value))
                &&& forall|j: int|
                    0 <= j < k ==> visitor.ensures((&#[trigger] items[j],), Do::Nothing)
            },
        None => forall|j: int|
            0 <= j < items.len() ==> visitor.ensures((&#[trigger] items[j],), Do::Nothing),
    }
}

/// Scans `items` and returns the first value that `visitor` takes.
pub fn scan_first<A, R, F: Fn(&A) -> Do<R>>(items: &Vec<A>, visitor: F) -> (found: Option<R>)
    requires
        accepts_all(visitor, items@),
    ensures
        first_taken(visitor, items@, found),
{
    let mut i: usize = 0;
    while i < items.len()
        invariant
            i <= items.len(),
            accepts_all(visitor, items@),
            forall|j: int| 0 <= j < i ==> visitor.ensures((&#[trigger] items@[j],), Do::Nothing),
        decreases items.len() - i,
    {
        match visitor(&items[i]) {
            Do::Take(value) => {
                return Some(value);
            },
            Do::Nothing => {},
        }
        i += 1;
    }
    None
}

/// Scans `items` and returns every value that `visitor` takes, in order.
pub fn scan_all<A, R, F: Fn(&A) -> Do<R>>(items: &Vec<A>, visitor: F) -> (found: Vec<R>)
    requires
        accepts_all(visitor, items@),
    ensures
        exists|answers: Seq<Do<R>>|
            answers_of(visitor, items@, answers) && found@ == all_taken(answers),
{
    let mut found: Vec<R> = Vec::new();
    let ghost mut answers: Seq<Do<R>> = Seq::empty();
    let mut i: usize = 0;
    while i < items.len()
        invariant
            i <= items.len(),
            accepts_all(visitor, items@),
            answers_of(visitor, items@.take(i as int), answers),
            found@ == all_taken(answers),
        decreases items.len() - i,
    {
        let answer = visitor(&items[i]);
        proof {
            let ghost before = answers;
            answers = answers.push(answer);
            assert(answers.drop_last() == before);
            assert(items@.take(i + 1).drop_last() == items@.take(i as int));
            assert forall|j: int| 0 <= j < i + 1 implies visitor.ensures(
                (&#[trigger] items@.take(i + 1)[j],),
                answers[j],
            ) by {
                if j < i {
                    assert(items@.take(i as int)[j] == items@.take(i + 1)[j]);
                }
            }
        }
        match answer {
            Do::Take(value) => {
                found.push(value);
            },
            Do::Nothing => {},
        }
        i += 1;
    }
    proof {
        assert(items@.take(i as int) == items@);
    }
    found
}

/// `judge` may be asked about every one of `items` in `context`.
pub open spec fn judges_all<G, A, F: Fn(&G, &A) -> bool>(
    judge: F,
    context: G,
    items: Seq<A>,
) -> bool {
    forall|i: int| 0 <= i < items.len() ==> judge.requires((&context, &#[trigger] items[i]))
}

/// `verdicts` is what `judge` may say when asked about `items` one by one
/// in `context`.
pub open spec fn verdicts_of<G, A, F: Fn(&G, &A) -> bool>(
    judge: F,
    context: G,
    items: Seq<A>,
    verdicts: Seq<bool>,
) -> bool {
    &&& verdicts.len() == items.len()
    &&& forall|i: int|
        0 <= i < items.len() ==> judge.ensures((&context, &#[trigger] items[i]), verdicts[i])
}

/// Asks `judge` about every one of `items` in `context`, in order, and
/// returns what it said.
pub fn judge_all<G, A, F: Fn(&G, &A) -> bool>(
    context: &G,
    items: &Vec<A>,
    judge: F,
) -> (verdicts: Vec<bool>)
    requires
        judges_all(judge, *context, items@),
    ensures
        verdicts_of(judge, *context, items@, verdicts@),
{
    let mut verdicts: Vec<bool> = Vec::new();
    let mut i: usize = 0;
    while i < items.len()
        invariant
            i <= items.len(),
            judges_all(judge, *context, items@),
            verdicts_of(judge, *context, items@.take(i as int), verdicts@),
        decreases items.len() - i,
    {
        let verdict = judge(context, &items[i]);
        verdicts.push(verdict);
        proof {
            assert forall|j: int| 0 <= j < i + 1 implies judge.ensures(
                (context, &#[trigger] items@.take(i + 1)[j]),
                verdicts@[j],
            ) by {
                if j < i {
                    assert(items@.take(i as int)[j] == items@.take(i + 1)[j]);
                }
            }
        }
        i += 1;
    }
    proof {
        assert(items@.take(i as int) == items@);
    }
    verdicts
}

} // verus!
