//! A handle on a font map that is built in the background and joined, once,
//! when it is first needed.

use vstd::prelude::*;
use crate::error::FontError;

verus! {

/// Where a deferred map stands.
pub enum Phase {
    Waiting,
    Ready,
    Invalid,
}

/// The phase after one synchronization from `p`, where `ok` says whether
/// the join (if one is made) succeeded.
pub open spec fn next_phase(p: Phase, ok: bool) -> Phase {
    match p {
        Phase::Waiting => if ok { Phase::Ready } else { Phase::Invalid },
        _ => p,
    }
}

/// How many joins a run of synchronizations from `p` makes, where
/// `outcomes[i]` is whether the `i`-th call succeeded.
pub open spec fn joins_in(p: Phase, outcomes: Seq<bool>) -> nat
    decreases outcomes.len(),
{
    if outcomes.len() == 0 {
        0
    } else {
        (if p == Phase::Waiting { 1nat } else { 0nat }) + joins_in(
            next_phase(p, outcomes[0]),
            outcomes.drop_first(),
        )
    }
}

/// A map being built by a worker (`W` is the handle to join it), a map that
/// is ready (`R` is the shared handle to it), or, where a join failed or was
/// interrupted, neither.
pub enum MaybeFontMap<W, R> {
    Waiting(W),
    Ready(R),
    Invalid,
}

impl<W, R> MaybeFontMap<W, R> {
    pub open spec fn phase(&self) -> Phase {
        match self {
            MaybeFontMap::Waiting(_) => Phase::Waiting,
            MaybeFontMap::Ready(_) => Phase::Ready,
            MaybeFontMap::Invalid => Phase::Invalid,
        }
    }

    /// A handle on the work that `worker` is doing.
    pub fn launch(worker: W) -> (r: Self)
        ensures
            r == MaybeFontMap::<W, R>::Waiting(worker),
    {
        MaybeFontMap::Waiting(worker)
    }

    /// The ready map; `NotLoaded` before synchronization, `InvalidState`
    /// after a failed one.
    pub fn unwrap(&self) -> (r: Result<&R, FontError>)
        ensures
            match *self {
                MaybeFontMap::Ready(m) => r == Ok::<&R, FontError>(&m),
                MaybeFontMap::Waiting(_) => r == Err::<&R, FontError>(FontError::NotLoaded),
                MaybeFontMap::Invalid => r == Err::<&R, FontError>(FontError::InvalidState),
            },
    {
        match self {
            MaybeFontMap::Ready(m) => Ok(m),
            MaybeFontMap::Waiting(_) => Err(FontError::NotLoaded),
            MaybeFontMap::Invalid => Err(FontError::InvalidState),
        }
    }

    /// Synchronizes: while waiting, joins the worker through `join`, once, and
    /// keeps its map, or its error, which leaves the handle invalid. A ready
    /// handle is left as it is; an invalid one gives `InvalidState`.
    pub fn resolve<F>(&mut self, join: F) -> (r: Result<(), FontError>)
        where
            F: FnOnce(W) -> Result<R, FontError>,
        requires
            forall|w: W| join.requires((w,)),
        ensures
            final(self).phase() == next_phase(old(self).phase(), r.is_ok()),
            match *old(self) {
                MaybeFontMap::Waiting(w) => exists|res: Result<R, FontError>| {
                    &&& join.ensures((w,), res)
                    &&& match res {
                        Ok(m) => *final(self) == MaybeFontMap::<W, R>::Ready(m) && r.is_ok(),
                        Err(e) => *final(self) == MaybeFontMap::<W, R>::Invalid && r == Err::<(), FontError>(e),
                    }
                },
                MaybeFontMap::Ready(_) => *final(self) == *old(self) && r.is_ok(),
                MaybeFontMap::Invalid => *final(self) == MaybeFontMap::<W, R>::Invalid
                    && r == Err::<(), FontError>(FontError::InvalidState),
            },
    {
        let mut state = MaybeFontMap::Invalid;
        std::mem::swap(&mut state, self);
        match state {
            MaybeFontMap::Waiting(w) => {
                let res = join(w);
                match res {
                    Ok(m) => {
                        *self = MaybeFontMap::Ready(m);
                        Ok(())
                    },
                    Err(e) => Err(e),
                }
            },
            MaybeFontMap::Ready(m) => {
                *self = MaybeFontMap::Ready(m);
                Ok(())
            },
            MaybeFontMap::Invalid => Err(FontError::InvalidState),
        }
    }
}

proof fn lemma_no_joins_once_settled(p: Phase, outcomes: Seq<bool>)
    requires
        p != Phase::Waiting,
    ensures
        joins_in(p, outcomes) == 0,
    decreases outcomes.len(),
{
    if outcomes.len() > 0 {
        lemma_no_joins_once_settled(next_phase(p, outcomes[0]), outcomes.drop_first());
    }
}

/// Synchronizing a waiting handle any number of times joins its worker
/// exactly once (none at all for no calls), whether the join succeeds or fails.
pub proof fn lemma_join_exactly_once(outcomes: Seq<bool>)
    ensures
        joins_in(Phase::Waiting, outcomes) == if outcomes.len() > 0 { 1nat } else { 0nat },
{
    if outcomes.len() > 0 {
        lemma_no_joins_once_settled(next_phase(Phase::Waiting, outcomes[0]), outcomes.drop_first());
    }
}

} // verus!
