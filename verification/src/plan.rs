//! The plan of an update: every step of its three passes, in the order in
//! which the steps are done, as a mathematical sequence; the place of each
//! step in that sequence in closed form; and what holds of the two.

use vstd::prelude::*;
use crate::step::{Pass, Step};

verus! {

/// The steps that `pass` does for `particle`, in order, among `count`
/// particles: the sums are cleared, every neighbour is visited by rising index
/// (in the force pass every neighbour but the particle itself), and the
/// result is derived from the sums. Integration is a single step.
pub open spec fn block(count: usize, pass: Pass, particle: usize) -> Seq<Step> {
    match pass {
        Pass::DensityPressure => seq![Step::ClearDensity { particle }] + Seq::new(
            count as nat,
            |j: int| Step::Density { particle, neighbour: j as usize },
        ) + seq![Step::Pressure { particle }],
        Pass::Forces => seq![Step::ClearForce { particle }] + Seq::new(
            count as nat,
            |j: int| Step::Force { particle, neighbour: j as usize },
        ).remove(particle as int) + seq![Step::Resultant { particle }],
        Pass::Integrate => seq![Step::Integrate { particle }],
    }
}

/// The number of steps that `pass` does for each particle.
pub open spec fn block_len(count: usize, pass: Pass) -> int {
    match pass {
        Pass::DensityPressure => count + 2,
        Pass::Forces => count + 1,
        Pass::Integrate => 1,
    }
}

/// The steps that `pass` does for the particles below `upto`, particle by
/// particle.
pub open spec fn pass_prefix(count: usize, pass: Pass, upto: nat) -> Seq<Step>
    decreases upto,
{
    if upto == 0 {
        Seq::empty()
    } else {
        pass_prefix(count, pass, (upto - 1) as nat) + block(count, pass, (upto - 1) as usize)
    }
}

/// All steps of `pass`: a pass is done for every particle, by rising index.
pub open spec fn pass_steps(count: usize, pass: Pass) -> Seq<Step> {
    pass_prefix(count, pass, count as nat)
}

/// The plan of one update of `count` particles: the density and pressure pass
/// in full, then the force pass in full, then the integration.
pub open spec fn update_plan(count: usize) -> Seq<Step> {
    pass_steps(count, Pass::DensityPressure) + pass_steps(count, Pass::Forces) + pass_steps(
        count,
        Pass::Integrate,
    )
}

/// Whether an update of `count` particles has the step `step`: its particles
/// exist, and no particle exerts a force on itself.
pub open spec fn occurs(count: usize, step: Step) -> bool {
    match step {
        Step::Density { particle, neighbour } => particle < count && neighbour < count,
        Step::Force { particle, neighbour } => particle < count && neighbour < count && neighbour
            != particle,
        _ => step.particle() < count,
    }
}

/// The number of steps of an update that come before the first step of
/// `pass`.
pub open spec fn pass_start(count: usize, pass: Pass) -> int {
    match pass {
        Pass::DensityPressure => 0,
        Pass::Forces => count * (count + 2),
        Pass::Integrate => count * (count + 2) + count * (count + 1),
    }
}

/// The place of `step` among the steps that its pass does for its particle.
pub open spec fn slot(count: usize, step: Step) -> int {
    match step {
        Step::ClearDensity { .. } => 0,
        Step::Density { neighbour, .. } => 1 + neighbour,
        Step::Pressure { .. } => 1 + count,
        Step::ClearForce { .. } => 0,
        Step::Force { particle, neighbour } => if neighbour < particle {
            1 + neighbour
        } else {
            neighbour as int
        },
        Step::Resultant { .. } => count as int,
        Step::Integrate { .. } => 0,
    }
}

/// The place of `step` in the plan of an update of `count` particles.
pub open spec fn position_of(count: usize, step: Step) -> int {
    pass_start(count, step.pass()) + step.particle() * block_len(count, step.pass()) + slot(
        count,
        step,
    )
}

/// The number of steps of an update of `count` particles.
pub open spec fn plan_len(count: usize) -> int {
    2 * count * count + 4 * count
}

/// A block has the length that its pass gives it, and holds each step of its
/// pass and particle at the step's slot.
proof fn lemma_block_holds(count: usize, step: Step)
    requires
        occurs(count, step),
    ensures
        block(count, step.pass(), step.particle()).len() == block_len(count, step.pass()),
        0 <= slot(count, step) < block_len(count, step.pass()),
        block(count, step.pass(), step.particle())[slot(count, step)] == step,
{
}

/// Each place of a block holds a step of the block's pass and particle, whose
/// slot is that place.
proof fn lemma_block_slot(count: usize, pass: Pass, particle: usize, s: int)
    requires
        particle < count,
        0 <= s < block_len(count, pass),
    ensures
        block(count, pass, particle).len() == block_len(count, pass),
        occurs(count, block(count, pass, particle)[s]),
        block(count, pass, particle)[s].pass() == pass,
        block(count, pass, particle)[s].particle() == particle,
        slot(count, block(count, pass, particle)[s]) == s,
{
}

/// The blocks of a pass lie side by side: that of particle `i` begins after
/// `i` blocks.
proof fn lemma_prefix_index(count: usize, pass: Pass, upto: nat, i: int, s: int)
    requires
        0 <= i < upto <= count,
        0 <= s < block_len(count, pass),
    ensures
        0 <= i * block_len(count, pass) + s < upto * block_len(count, pass),
        pass_prefix(count, pass, upto)[i * block_len(count, pass) + s] == block(
            count,
            pass,
            i as usize,
        )[s],
    decreases upto,
{
    let w = block_len(count, pass);
    let last = (upto - 1) as nat;
    lemma_block_slot(count, pass, last as usize, 0);
    lemma_prefix_len(count, pass, last);
    assert(last * w + w == upto * w) by (nonlinear_arith)
        requires
            last + 1 == upto,
    ;
    if i == last {
    } else {
        lemma_prefix_index(count, pass, last, i, s);
    }
    assert(0 <= i * w + s) by (nonlinear_arith)
        requires
            0 <= i,
            0 <= s,
            0 < w,
    ;
    assert(i * w + s < upto * w) by (nonlinear_arith)
        requires
            0 <= i < upto,
            0 <= s < w,
    ;
}

/// The length of the blocks of the particles below `upto`.
proof fn lemma_prefix_len(count: usize, pass: Pass, upto: nat)
    requires
        upto <= count,
    ensures
        pass_prefix(count, pass, upto).len() == upto * block_len(count, pass),
    decreases upto,
{
    let w = block_len(count, pass);
    if upto > 0 {
        let last = (upto - 1) as nat;
        lemma_block_slot(count, pass, last as usize, 0);
        lemma_prefix_len(count, pass, last);
        assert(last * w + w == upto * w) by (nonlinear_arith)
            requires
                last + 1 == upto,
        ;
    } else {
        assert(upto * w == 0) by (nonlinear_arith)
            requires
                upto == 0,
        ;
    }
}

/// The particle in whose block the place `k` of a pass lies.
proof fn lemma_prefix_locate(count: usize, pass: Pass, upto: nat, k: int) -> (i: int)
    requires
        upto <= count,
        0 <= k < upto * block_len(count, pass),
    ensures
        0 <= i < upto,
        0 <= k - i * block_len(count, pass) < block_len(count, pass),
        pass_prefix(count, pass, upto)[k] == block(count, pass, i as usize)[k - i * block_len(
            count,
            pass,
        )],
    decreases upto,
{
    let w = block_len(count, pass);
    assert(upto > 0) by (nonlinear_arith)
        requires
            0 <= k < upto * w,
            upto >= 0,
    ;
    let last = (upto - 1) as nat;
    lemma_block_slot(count, pass, last as usize, 0);
    lemma_prefix_len(count, pass, last);
    assert(last * w + w == upto * w) by (nonlinear_arith)
        requires
            last + 1 == upto,
    ;
    if k < last * w {
        lemma_prefix_locate(count, pass, last, k)
    } else {
        last as int
    }
}

/// A pass has one block for each particle.
pub proof fn lemma_pass_len(count: usize, pass: Pass)
    ensures
        pass_steps(count, pass).len() == count * block_len(count, pass),
{
    lemma_prefix_len(count, pass, count as nat);
}

/// The plan is as long as `plan_len` says, and ends with one integration step
/// for each particle.
pub proof fn lemma_plan_len(count: usize)
    ensures
        update_plan(count).len() == plan_len(count),
        plan_len(count) == pass_start(count, Pass::Integrate) + count,
{
    lemma_pass_len(count, Pass::DensityPressure);
    lemma_pass_len(count, Pass::Forces);
    lemma_pass_len(count, Pass::Integrate);
    assert(count * (count + 2) + count * (count + 1) + count * 1 == 2 * count * count + 4 * count)
        by (nonlinear_arith);
}

/// Every step that an update has stands in the plan, at the place that
/// `position_of` gives.
pub proof fn lemma_step_position(count: usize, step: Step)
    requires
        occurs(count, step),
    ensures
        0 <= position_of(count, step) < plan_len(count),
        update_plan(count)[position_of(count, step)] == step,
{
    lemma_plan_len(count);
    lemma_pass_len(count, Pass::DensityPressure);
    lemma_pass_len(count, Pass::Forces);
    lemma_pass_len(count, Pass::Integrate);
    lemma_block_holds(count, step);
    lemma_prefix_index(count, step.pass(), count as nat, step.particle() as int, slot(count, step));
}

/// Every place of the plan holds a step that the update has, and
/// `position_of` gives that place back.
pub proof fn lemma_position_step(count: usize, k: int)
    requires
        0 <= k < plan_len(count),
    ensures
        occurs(count, update_plan(count)[k]),
        position_of(count, update_plan(count)[k]) == k,
{
    lemma_plan_len(count);
    lemma_pass_len(count, Pass::DensityPressure);
    lemma_pass_len(count, Pass::Forces);
    lemma_pass_len(count, Pass::Integrate);
    let pass = if k < pass_start(count, Pass::Forces) {
        Pass::DensityPressure
    } else if k < pass_start(count, Pass::Integrate) {
        Pass::Forces
    } else {
        Pass::Integrate
    };
    let offset = k - pass_start(count, pass);
    let i = lemma_prefix_locate(count, pass, count as nat, offset);
    lemma_block_slot(count, pass, i as usize, offset - i * block_len(count, pass));
}

/// The plan holds exactly the steps that the update has. So every particle
/// adds to its own density, and none exerts a force on itself.
pub proof fn lemma_plan_contains(count: usize, step: Step)
    ensures
        update_plan(count).contains(step) <==> occurs(count, step),
{
    lemma_plan_len(count);
    if occurs(count, step) {
        lemma_step_position(count, step);
    }
    if update_plan(count).contains(step) {
        let k = choose|k: int| 0 <= k < update_plan(count).len() && update_plan(count)[k] == step;
        lemma_position_step(count, k);
    }
}

/// No step is done twice in one update.
pub proof fn lemma_plan_no_duplicates(count: usize)
    ensures
        update_plan(count).no_duplicates(),
{
    lemma_plan_len(count);
    assert forall|a: int, b: int|
        0 <= a < update_plan(count).len() && 0 <= b < update_plan(count).len() && a
            != b implies update_plan(count)[a] != update_plan(count)[b] by {
        lemma_position_step(count, a);
        lemma_position_step(count, b);
    }
}

/// Whether `first` is done before `second`: the steps are ordered by pass,
/// within a pass by particle, and within a particle by slot.
pub open spec fn precedes(count: usize, first: Step, second: Step) -> bool {
    ||| first.pass().rank() < second.pass().rank()
    ||| first.pass() == second.pass() && first.particle() < second.particle()
    ||| first.pass() == second.pass() && first.particle() == second.particle() && slot(
        count,
        first,
    ) < slot(count, second)
}

/// The order of the plan is that of `precedes`. Sums are therefore always
/// taken in the same order, whatever the particles hold.
pub proof fn lemma_plan_order(count: usize, first: Step, second: Step)
    requires
        occurs(count, first),
        occurs(count, second),
    ensures
        position_of(count, first) < position_of(count, second) <==> precedes(count, first, second),
{
    if precedes(count, first, second) {
        lemma_precedes(count, first, second);
    } else if precedes(count, second, first) {
        lemma_precedes(count, second, first);
    }
}

/// The passes do not interleave: every step of a pass is done before the
/// first step of a later pass, so that a pass reads only finished results of
/// the passes before it.
pub proof fn lemma_passes_in_order(count: usize, a: int, b: int)
    requires
        0 <= a <= b < plan_len(count),
    ensures
        update_plan(count)[a].pass().rank() <= update_plan(count)[b].pass().rank(),
{
    lemma_position_step(count, a);
    lemma_position_step(count, b);
    lemma_plan_order(count, update_plan(count)[b], update_plan(count)[a]);
}

/// Every particle adds to its own density, and none exerts a force on
/// itself.
pub proof fn lemma_self_pair(count: usize, particle: usize)
    requires
        particle < count,
    ensures
        update_plan(count).contains(Step::Density { particle, neighbour: particle }),
        !update_plan(count).contains(Step::Force { particle, neighbour: particle }),
{
    lemma_plan_contains(count, Step::Density { particle, neighbour: particle });
    lemma_plan_contains(count, Step::Force { particle, neighbour: particle });
}

/// Nothing is carried over from one update to the next: the density of a
/// particle is cleared before any neighbour adds to it, and its pressure is
/// derived only when every neighbour has; likewise for the force sums of a
/// particle and its resultant force.
pub proof fn lemma_sums_in_order(count: usize, particle: usize, neighbour: usize)
    requires
        particle < count,
        neighbour < count,
    ensures
        position_of(count, Step::ClearDensity { particle }) < position_of(
            count,
            Step::Density { particle, neighbour },
        ) < position_of(count, Step::Pressure { particle }),
        neighbour != particle ==> position_of(count, Step::ClearForce { particle }) < position_of(
            count,
            Step::Force { particle, neighbour },
        ) < position_of(count, Step::Resultant { particle }),
{
}

/// A force step reads the density and the pressure of both its particles:
/// both have been derived by then, for no other step of the update writes
/// them.
pub proof fn lemma_pressure_before_force(count: usize, particle: usize, neighbour: usize)
    requires
        occurs(count, Step::Force { particle, neighbour }),
    ensures
        position_of(count, Step::Pressure { particle }) < position_of(
            count,
            Step::Force { particle, neighbour },
        ),
        position_of(count, Step::Pressure { particle: neighbour }) < position_of(
            count,
            Step::Force { particle, neighbour },
        ),
{
    let force = Step::Force { particle, neighbour };
    lemma_plan_order(count, Step::Pressure { particle }, force);
    lemma_plan_order(count, Step::Pressure { particle: neighbour }, force);
}

/// No particle moves before the force on every particle is known: forces are
/// computed from the positions and velocities that the update began with.
pub proof fn lemma_forces_before_integration(count: usize, particle: usize, moved: usize)
    requires
        particle < count,
        moved < count,
    ensures
        position_of(count, Step::Resultant { particle }) < position_of(
            count,
            Step::Integrate { particle: moved },
        ),
{
    lemma_plan_order(count, Step::Resultant { particle }, Step::Integrate { particle: moved });
}

/// A step that `precedes` another has the lower place.
proof fn lemma_precedes(count: usize, first: Step, second: Step)
    requires
        occurs(count, first),
        occurs(count, second),
        precedes(count, first, second),
    ensures
        position_of(count, first) < position_of(count, second),
{
    let n = count as int;
    let (i, j) = (first.particle() as int, second.particle() as int);
    let (v, w) = (block_len(count, first.pass()), block_len(count, second.pass()));
    lemma_block_holds(count, first);
    lemma_block_holds(count, second);
    assert(0 <= i * v && i * v + v <= n * v) by (nonlinear_arith)
        requires
            0 <= i < n,
            0 < v,
    ;
    assert(0 <= j * w) by (nonlinear_arith)
        requires
            0 <= j,
            0 < w,
    ;
    assert(i < j ==> i * w + w <= j * w) by (nonlinear_arith)
        requires
            0 < w,
    ;
}

} // verus!
