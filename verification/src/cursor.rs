//! Walking the plan of an update step by step, with nothing stored but the
//! step that comes next.

use vstd::prelude::*;
use crate::plan::{
    block_len, lemma_plan_len, lemma_position_step, lemma_step_position, occurs, plan_len,
    position_of, update_plan,
};
use crate::step::Step;

verus! {

/// The step that follows `step` in the plan of an update of `count`
/// particles: none after the last step, and none after a step that the update
/// does not have.
pub open spec fn following(count: usize, step: Step) -> Option<Step> {
    if occurs(count, step) && position_of(count, step) + 1 < update_plan(count).len() {
        Some(update_plan(count)[position_of(count, step) + 1])
    } else {
        None
    }
}

/// Whether an update of `count` particles has the step `step`.
pub fn has_step(count: usize, step: Step) -> (has: bool)
    ensures
        has == occurs(count, step),
{
    match step {
        Step::ClearDensity { particle } => particle < count,
        Step::Density { particle, neighbour } => particle < count && neighbour < count,
        Step::Pressure { particle } => particle < count,
        Step::ClearForce { particle } => particle < count,
        Step::Force { particle, neighbour } => particle < count && neighbour < count && neighbour
            != particle,
        Step::Resultant { particle } => particle < count,
        Step::Integrate { particle } => particle < count,
    }
}

/// The step with which an update of `count` particles begins. An update of no
/// particles has no step.
pub fn first_step(count: usize) -> (first: Option<Step>)
    ensures
        first == (if count == 0 {
            None
        } else {
            Some(Step::ClearDensity { particle: 0 })
        }),
        first == (if update_plan(count).len() == 0 {
            None
        } else {
            Some(update_plan(count)[0])
        }),
{
    proof {
        lemma_plan_len(count);
    }
    if count == 0 {
        None
    } else {
        let step = Step::ClearDensity { particle: 0 };
        proof {
            lemma_step_position(count, step);
        }
        Some(step)
    }
}

/// The step to do once `step` is done, in an update of `count` particles.
pub fn step_after(count: usize, step: Step) -> (next: Option<Step>)
    ensures
        next == following(count, step),
{
    if !has_step(count, step) {
        return None;
    }
    let next = match step {
        Step::ClearDensity { particle } => Some(Step::Density { particle, neighbour: 0 }),
        Step::Density { particle, neighbour } => {
            if neighbour + 1 < count {
                Some(Step::Density { particle, neighbour: neighbour + 1 })
            } else {
                Some(Step::Pressure { particle })
            }
        },
        Step::Pressure { particle } => {
            if particle + 1 < count {
                Some(Step::ClearDensity { particle: particle + 1 })
            } else {
                Some(Step::ClearForce { particle: 0 })
            }
        },
        Step::ClearForce { particle } => {
            let neighbour: usize = if particle == 0 {
                1
            } else {
                0
            };
            if neighbour < count {
                Some(Step::Force { particle, neighbour })
            } else {
                Some(Step::Resultant { particle })
            }
        },
        Step::Force { particle, neighbour } => {
            let beyond: usize = if neighbour + 1 == particle {
                neighbour + 2
            } else {
                neighbour + 1
            };
            if beyond < count {
                Some(Step::Force { particle, neighbour: beyond })
            } else {
                Some(Step::Resultant { particle })
            }
        },
        Step::Resultant { particle } => {
            if particle + 1 < count {
                Some(Step::ClearForce { particle: particle + 1 })
            } else {
                Some(Step::Integrate { particle: 0 })
            }
        },
        Step::Integrate { particle } => {
            if particle + 1 < count {
                Some(Step::Integrate { particle: particle + 1 })
            } else {
                None
            }
        },
    };
    proof {
        lemma_plan_len(count);
        lemma_step_position(count, step);
        lemma_block_ends(count as int, step.particle() as int, block_len(count, step.pass()));
        match next {
            Some(then) => {
                lemma_block_ends(
                    count as int,
                    then.particle() as int,
                    block_len(count, then.pass()),
                );
                assert(position_of(count, then) == position_of(count, step) + 1);
                lemma_step_position(count, then);
            },
            None => {
                assert(position_of(count, step) + 1 == plan_len(count));
            },
        }
    }
    next
}

/// Where the block of particle `i` ends that of particle `i + 1` begins, and
/// where the block of the last particle ends the next pass begins.
proof fn lemma_block_ends(n: int, i: int, width: int)
    ensures
        (i + 1) * width == i * width + width,
        0 * width == 0,
        i + 1 == n ==> i * width + width == n * width,
{
    assert((i + 1) * width == i * width + width) by (nonlinear_arith);
}

/// A walk through the plan of one update: it hands out the steps one by one,
/// in the order of the plan, and then nothing more.
pub struct Cursor {
    count: usize,
    upcoming: Option<Step>,
}

impl View for Cursor {
    type V = Seq<Step>;

    /// The steps that are still to be handed out, in order.
    open spec fn view(&self) -> Seq<Step> {
        update_plan(self.count()).skip(self.position())
    }
}

impl Cursor {
    #[verifier::type_invariant]
    spec fn upcoming_occurs(self) -> bool {
        self.upcoming matches Some(step) ==> occurs(self.count, step)
    }

    /// The number of particles of the update that is walked through.
    pub closed spec fn spec_count(&self) -> usize {
        self.count
    }

    /// The number of steps that have been handed out.
    pub closed spec fn position(&self) -> int {
        match self.upcoming {
            Some(step) => position_of(self.count, step),
            None => plan_len(self.count),
        }
    }

    /// A walk that stands before the first step of an update of `count`
    /// particles.
    pub fn new(count: usize) -> (cursor: Cursor)
        ensures
            cursor.count() == count,
            cursor.position() == 0,
            cursor@ == update_plan(count),
    {
        let upcoming = first_step(count);
        proof {
            lemma_plan_len(count);
            if count > 0 {
                lemma_step_position(count, Step::ClearDensity { particle: 0 });
            }
            assert(update_plan(count).skip(0) =~= update_plan(count));
        }
        Cursor { count, upcoming }
    }

    /// The number of particles of the update that is walked through.
    #[verifier::when_used_as_spec(spec_count)]
    pub fn count(&self) -> (count: usize)
        ensures
            count == self.spec_count(),
    {
        self.count
    }

    /// Hands out the next step of the update, or `None` once every step has
    /// been handed out. A step that is handed out names particles of the
    /// update only.
    pub fn advance(&mut self) -> (step: Option<Step>)
        ensures
            final(self).count() == old(self).count(),
            0 <= old(self).position() <= final(self).position() <= plan_len(old(self).count()),
            old(self)@.len() == 0 ==> step is None && final(self).position() == old(
                self,
            ).position(),
            old(self)@.len() > 0 ==> step == Some(old(self)@[0]) && final(self).position() == old(
                self,
            ).position() + 1,
            final(self)@ == old(self)@.skip(if step is Some { 1int } else { 0int }),
            step matches Some(handed) ==> occurs(old(self).count(), handed),
    {
        proof {
            use_type_invariant(&*self);
            lemma_plan_len(self.count);
            assert(self@.skip(0) =~= self@);
        }
        match self.upcoming {
            None => None,
            Some(step) => {
                let next = step_after(self.count, step);
                proof {
                    let plan = update_plan(self.count);
                    let at = position_of(self.count, step);
                    lemma_step_position(self.count, step);
                    if next is Some {
                        lemma_position_step(self.count, at + 1);
                    }
                    assert(plan.skip(at).skip(1) =~= plan.skip(at + 1));
                }
                self.upcoming = next;
                Some(step)
            },
        }
    }
}

} // verus!
