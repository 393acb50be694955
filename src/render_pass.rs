use vstd::prelude::*;

use crate::error::Error;

verus! {

/// What a render pass does next: draw the entry at an index, or finish with a result.
pub enum PassStep {
    Draw(usize),
    Finished(Result<(), Error>),
}

pub open spec fn start_step(len: nat) -> PassStep {
    if len > 0 {
        PassStep::Draw(0)
    } else {
        PassStep::Finished(Ok(()))
    }
}

/// The step after the entry at `index` of `len` reported `outcome`: the first failure ends
/// the pass with that failure; otherwise the next entry is drawn, or the pass succeeds.
pub open spec fn next_step(len: nat, index: int, outcome: Result<(), Error>) -> PassStep {
    match outcome {
        Err(_) => PassStep::Finished(outcome),
        Ok(_) => if index + 1 < len {
            PassStep::Draw((index + 1) as usize)
        } else {
            PassStep::Finished(Ok(()))
        },
    }
}

/// How a pass that has reached `step` goes on when entry `i` reports `outcomes[i]`: the
/// indices it draws, in order, and the result it finishes with.
pub open spec fn trace_from(outcomes: Seq<Result<(), Error>>, step: PassStep) -> (
    Seq<int>,
    Result<(), Error>,
)
    decreases
            (match step {
                PassStep::Draw(i) => outcomes.len() - i,
                PassStep::Finished(_) => 0,
            }),
    when outcomes.len() <= usize::MAX
{
    match step {
        PassStep::Finished(r) => (Seq::empty(), r),
        PassStep::Draw(i) => if i < outcomes.len() {
            let rest = trace_from(outcomes, next_step(outcomes.len(), i as int, outcomes[i as int]));
            (seq![i as int] + rest.0, rest.1)
        } else {
            (Seq::empty(), Ok(()))
        },
    }
}

proof fn lemma_trace_fails_at(outcomes: Seq<Result<(), Error>>, i: int, k: int)
    requires
        outcomes.len() <= usize::MAX,
        0 <= i <= k < outcomes.len(),
        outcomes[k] is Err,
        forall|j: int| 0 <= j < k ==> #[trigger] outcomes[j] is Ok,
    ensures
        trace_from(outcomes, PassStep::Draw(i as usize)) == (
            Seq::new((k + 1 - i) as nat, |j: int| i + j),
            outcomes[k],
        ),
    decreases k - i,
{
    let here = trace_from(outcomes, PassStep::Draw(i as usize));
    let next = next_step(outcomes.len(), i, outcomes[i]);
    assert(here == (seq![i] + trace_from(outcomes, next).0, trace_from(outcomes, next).1));
    if i < k {
        assert(next == PassStep::Draw((i + 1) as usize));
        lemma_trace_fails_at(outcomes, i + 1, k);
        assert(seq![i] + Seq::new((k - i) as nat, |j: int| i + 1 + j) =~= Seq::new(
            (k + 1 - i) as nat,
            |j: int| i + j,
        ));
    } else {
        assert(seq![i] + Seq::<int>::empty() =~= Seq::new(1, |j: int| i + j));
    }
}

/// A render pass stops at the first entry that reports a failure: it draws the entries
/// before it and that entry, in order, never a later one, and finishes with that failure.
pub proof fn lemma_render_fail_fast(outcomes: Seq<Result<(), Error>>, k: int)
    requires
        outcomes.len() <= usize::MAX,
        0 <= k < outcomes.len(),
        outcomes[k] is Err,
        forall|j: int| 0 <= j < k ==> #[trigger] outcomes[j] is Ok,
    ensures
        trace_from(outcomes, start_step(outcomes.len())) == (
            Seq::new((k + 1) as nat, |j: int| j),
            outcomes[k],
        ),
{
    lemma_trace_fails_at(outcomes, 0, k);
    assert(Seq::new((k + 1) as nat, |j: int| 0 + j) =~= Seq::new((k + 1) as nat, |j: int| j));
}

proof fn lemma_trace_succeeds_from(outcomes: Seq<Result<(), Error>>, i: int)
    requires
        outcomes.len() <= usize::MAX,
        0 <= i < outcomes.len(),
        forall|j: int| 0 <= j < outcomes.len() ==> #[trigger] outcomes[j] is Ok,
    ensures
        trace_from(outcomes, PassStep::Draw(i as usize)) == (
            Seq::new((outcomes.len() - i) as nat, |j: int| i + j),
            Ok::<(), Error>(()),
        ),
    decreases outcomes.len() - i,
{
    let here = trace_from(outcomes, PassStep::Draw(i as usize));
    let next = next_step(outcomes.len(), i, outcomes[i]);
    assert(here == (seq![i] + trace_from(outcomes, next).0, trace_from(outcomes, next).1));
    if i + 1 < outcomes.len() {
        assert(next == PassStep::Draw((i + 1) as usize));
        lemma_trace_succeeds_from(outcomes, i + 1);
        assert(seq![i] + Seq::new((outcomes.len() - i - 1) as nat, |j: int| i + 1 + j) =~= Seq::new(
            (outcomes.len() - i) as nat,
            |j: int| i + j,
        ));
    } else {
        assert(seq![i] + Seq::<int>::empty() =~= Seq::new(1, |j: int| i + j));
    }
}

/// A render pass whose entries all succeed draws every entry once, in registry order,
/// and succeeds.
pub proof fn lemma_render_all_succeed(outcomes: Seq<Result<(), Error>>)
    requires
        outcomes.len() <= usize::MAX,
        forall|j: int| 0 <= j < outcomes.len() ==> #[trigger] outcomes[j] is Ok,
    ensures
        trace_from(outcomes, start_step(outcomes.len())) == (
            Seq::new(outcomes.len(), |j: int| j),
            Ok::<(), Error>(()),
        ),
{
    if outcomes.len() > 0 {
        lemma_trace_succeeds_from(outcomes, 0);
        assert(Seq::new(outcomes.len(), |j: int| 0 + j) =~= Seq::new(outcomes.len(), |j: int| j));
    } else {
        assert(Seq::<int>::empty() =~= Seq::new(0, |j: int| j));
    }
}

/// The first step of a pass over `len` registered entries.
pub fn pass_start(len: usize) -> (s: PassStep)
    ensures
        s == start_step(len as nat),
{
    if len > 0 {
        PassStep::Draw(0)
    } else {
        PassStep::Finished(Ok(()))
    }
}

/// The step after the entry at `index` of `len` reported `outcome`.
pub fn pass_advance(len: usize, index: usize, outcome: Result<(), Error>) -> (s: PassStep)
    requires
        index < len,
    ensures
        s == next_step(len as nat, index as int, outcome),
{
    match outcome {
        Err(e) => PassStep::Finished(Err(e)),
        Ok(()) => if index + 1 < len {
            PassStep::Draw(index + 1)
        } else {
            PassStep::Finished(Ok(()))
        },
    }
}

/// A viewport rectangle: origin and size in pixels.
#[derive(Clone, Copy, PartialEq, Eq, Debug, Structural)]
pub struct Viewport {
    pub x: i32,
    pub y: i32,
    pub width: i32,
    pub height: i32,
}

pub open spec fn to_gl_size(n: u32) -> i32 {
    if n <= i32::MAX as u32 {
        n as i32
    } else {
        i32::MAX
    }
}

fn gl_size(n: u32) -> (r: i32)
    ensures
        r == to_gl_size(n),
{
    if n <= i32::MAX as u32 {
        n as i32
    } else {
        i32::MAX
    }
}

impl Viewport {
    /// The viewport that covers a backing store of the given pixel size, from its origin.
    /// A side too large for the GL's signed sizes is held at the largest one.
    pub fn covering(width: u32, height: u32) -> (v: Viewport)
        ensures
            v == (Viewport { x: 0, y: 0, width: to_gl_size(width), height: to_gl_size(height) }),
    {
        Viewport { x: 0, y: 0, width: gl_size(width), height: gl_size(height) }
    }
}

} // verus!
