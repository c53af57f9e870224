//! Learning from the replay memory, between the calls into the networks.

use vstd::prelude::*;

use crate::error::PcError;
use crate::linalg::LinAlg;
use crate::pc_actor_critic::agent::{replay_opt, PcActorCritic};
use crate::pc_actor_critic::learning::LearnStep;
use crate::pc_actor_critic::replay::{transition_views, ReplayTransition, ReplayView, TransitionView};
use crate::random::ordering;
use crate::reading::{difference_shows, reads, sized, sum_shows, Reading};
use crate::scalar::{clamped_is_within, Scalar};

verus! {

/// Bound on the TD error of a replayed step: `5.0`.
pub const MAX_REPLAY_TD_ERROR_BITS: u64 = 0x4014_0000_0000_0000;

/// The bound on the TD error of a replayed step.
#[verifier::allow_in_spec]
pub fn max_replay_td_error() -> Scalar
    returns
        (Scalar { bits: MAX_REPLAY_TD_ERROR_BITS }),
{
    Scalar { bits: MAX_REPLAY_TD_ERROR_BITS }
}

/// The TD error of a replayed step; nothing follows the end of an episode.
pub open spec fn raw_replay_error<L: LinAlg>(
    gamma: Scalar,
    reward: Scalar,
    done: bool,
    v_next: Scalar,
    v_s: Scalar,
) -> Scalar {
    L::minus(
        L::plus(
            reward,
            L::times(
                gamma,
                if done {
                    Scalar::zero()
                } else {
                    v_next
                },
            ),
        ),
        v_s,
    )
}

/// The TD error is out of bounds or not finite.
pub open spec fn clamp_binds(raw: Scalar) -> bool {
    !raw.finite() || max_replay_td_error().below(raw.magnitude_of())
}

/// The TD error moved within its bound.
pub open spec fn clamped_replay_error(raw: Scalar) -> Scalar {
    raw.clamped(max_replay_td_error().negated(), max_replay_td_error())
}

/// A draw out of a memory: each compartment gone through in some order, or nothing where
/// there is no memory.
pub open spec fn replay_draw(
    memory: Option<ReplayView>,
    batch: nat,
    drawn: Seq<TransitionView>,
) -> bool {
    match memory {
        Some(m) => exists|a: Seq<usize>, b: Seq<usize>|
            ordering(a, m.training.len()) && ordering(b, m.recent.len()) && drawn
                == #[trigger] m.drawn(batch, a, b),
        None => drawn.len() == 0,
    }
}

/// There is nothing to draw: no memory, nothing in it, or nothing asked for.
pub open spec fn nothing_to_draw(memory: Option<ReplayView>, batch: nat) -> bool {
    match memory {
        Some(m) => batch == 0 || m.training.len() + m.recent.len() == 0,
        None => true,
    }
}

impl<L: LinAlg> PcActorCritic<L> {
    /// The agent with a TD error counted where it had to be clamped.
    pub open spec fn clamp_counted(self, raw: Scalar) -> Self {
        PcActorCritic {
            replay_clamp_count: if clamp_binds(raw) && self.replay_clamp_count < u64::MAX {
                (self.replay_clamp_count + 1) as u64
            } else {
                self.replay_clamp_count
            },
            ..self
        }
    }

    /// Draws transitions out of the replay memory; none where there is no memory or nothing
    /// in it. Only the random numbers move on, and not even they where nothing is drawn.
    pub fn sample_replay_batch(&mut self, batch_size: usize) -> (r: Vec<ReplayTransition>)
        ensures
            replay_draw(
                replay_opt(old(self).replay_buffer),
                batch_size as nat,
                transition_views(r@),
            ),
            *final(self) == (PcActorCritic { rng: final(self).rng, ..*old(self) }),
            nothing_to_draw(replay_opt(old(self).replay_buffer), batch_size as nat) ==> r@.len()
                == 0 && *final(self) == *old(self),
    {
        match &self.replay_buffer {
            Some(buffer) => buffer.sample(batch_size, &mut self.rng),
            None => Vec::new(),
        }
    }

    /// The TD error of a replayed step, moved within its bound; counts the steps in which it
    /// had to be moved or was not finite.
    pub fn clamp_replay_error(
        &mut self,
        reward: Scalar,
        done: bool,
        v_next: Scalar,
        v_s: Scalar,
    ) -> (r: Scalar)
        ensures
            r == clamped_replay_error(
                raw_replay_error::<L>(old(self).config.gamma, reward, done, v_next, v_s),
            ),
            *final(self) == old(self).clamp_counted(
                raw_replay_error::<L>(old(self).config.gamma, reward, done, v_next, v_s),
            ),
    {
        let future = if done {
            Scalar::zero()
        } else {
            v_next
        };
        let target = L::scalar_add(reward, L::scalar_mul(self.config.gamma, future));
        let raw = L::scalar_sub(target, v_s);
        let bound = max_replay_td_error();
        if (!raw.is_finite() || bound.lt(raw.abs())) && self.replay_clamp_count < u64::MAX {
            self.replay_clamp_count = self.replay_clamp_count + 1;
        }
        raw.clamp(bound.neg(), bound)
    }

    /// Ends the training phase of the replay memory. Refused where there is no memory.
    pub fn seal_replay_training_memories(&mut self) -> (r: Result<(), PcError>)
        ensures
            r is Ok <==> old(self).replay_buffer is Some,
            r is Ok ==> {
                &&& final(self).replay_buffer is Some
                &&& final(self).replay_buffer->0@ == old(self).replay_buffer->0@.sealed()
            },
            r matches Err(e) ==> *final(self) == *old(self) && e.says(
                "seal_replay_training_memories requires replay_training_capacity > 0 at construction"@,
            ),
            *final(self) == (PcActorCritic {
                replay_buffer: final(self).replay_buffer,
                ..*old(self)
            }),
    {
        match &mut self.replay_buffer {
            Some(buffer) => {
                buffer.seal_training_memories();
                Ok(())
            },
            None => Err(
                PcError::ConfigValidation(
                    String::from_str(
                        "seal_replay_training_memories requires replay_training_capacity > 0 at construction",
                    ),
                ),
            ),
        }
    }

    /// Empties the recent compartment of the replay memory. Refused where there is no memory.
    pub fn clear_recent_memories(&mut self) -> (r: Result<(), PcError>)
        ensures
            r is Ok <==> old(self).replay_buffer is Some,
            r is Ok ==> {
                &&& final(self).replay_buffer is Some
                &&& final(self).replay_buffer->0@ == old(self).replay_buffer->0@.recent_cleared()
            },
            r matches Err(e) ==> *final(self) == *old(self) && e.says(
                "clear_recent_memories requires replay_training_capacity > 0 at construction"@,
            ),
            *final(self) == (PcActorCritic {
                replay_buffer: final(self).replay_buffer,
                ..*old(self)
            }),
    {
        match &mut self.replay_buffer {
            Some(buffer) => {
                buffer.clear_recent();
                Ok(())
            },
            None => Err(
                PcError::ConfigValidation(
                    String::from_str(
                        "clear_recent_memories requires replay_training_capacity > 0 at construction",
                    ),
                ),
            ),
        }
    }

    /// How many replayed steps had their TD error clamped.
    pub fn replay_clamp_count(&self) -> (r: u64)
        ensures
            r == self.replay_clamp_count,
    {
        self.replay_clamp_count
    }
}

/// A clamped TD error is within its bound, or is not a number; one that was within and finite
/// is not changed by the clamp.
pub proof fn replay_error_is_bounded(raw: Scalar)
    ensures
        ({
            let c = clamped_replay_error(raw);
            &&& c.nan() <==> raw.nan()
            &&& !c.nan() ==> c.within(max_replay_td_error().negated(), max_replay_td_error())
            &&& !clamp_binds(raw) ==> c == raw
        }),
{
    if !raw.nan() {
        clamped_is_within(raw, max_replay_td_error().negated(), max_replay_td_error());
    }
}

/// Before the clamp, a replayed step has the TD error that it would have online, from the same
/// values: only where the episode ended, and nothing times zero is not zero, may they differ.
pub proof fn replayed_error_is_the_online_error<L: LinAlg>(
    step: LearnStep<L>,
    v_s: Scalar,
    v_next: Scalar,
)
    requires
        step.pre_v_s is None,
        step.pre_td_error is None,
        step.done ==> L::times(step.gamma, Scalar::zero()) == Scalar::zero(),
    ensures
        raw_replay_error::<L>(step.gamma, step.reward, step.done, v_next, v_s) == step.td_error(
            v_s,
            v_next,
        ),
{
}

/// Before the clamp, the TD error of a replayed step is the reward plus, unless the episode
/// ended, the discounted value of the observation that followed, less the value of the
/// observation. The clamp leaves it alone within its bound.
pub proof fn replayed_error_is_reward_and_discounted_value<L: LinAlg>(
    rd: Reading,
    gamma: Scalar,
    reward: Scalar,
    done: bool,
    v_next: Scalar,
    v_s: Scalar,
    bound: real,
)
    requires
        reads::<L>(rd),
        gamma.finite(),
        0 as real <= rd.of(gamma) <= 1 as real,
        reward.finite(),
        v_next.finite(),
        v_s.finite(),
        sized(rd.of(reward), bound),
        sized(rd.of(v_next), bound),
        sized(rd.of(v_s), bound),
        bound >= 0 as real,
        bound + bound + bound + rd.slack + rd.slack <= rd.top,
    ensures
        ({
            let raw = raw_replay_error::<L>(gamma, reward, done, v_next, v_s);
            let next = if done {
                0 as real
            } else {
                rd.of(gamma) * rd.of(v_next)
            };
            let off = rd.slack + rd.slack + rd.slack;
            &&& rd.shows(raw, rd.of(reward) + next - rd.of(v_s), off)
            &&& !clamp_binds(raw) ==> rd.shows(
                clamped_replay_error(raw),
                rd.of(reward) + next - rd.of(v_s),
                off,
            )
        }),
{
    let g = rd.of(gamma);
    let v = if done {
        0 as real
    } else {
        rd.of(v_next)
    };
    let future = if done {
        Scalar::zero()
    } else {
        v_next
    };
    assert(sized(g * v, bound) && (done ==> g * v == 0 as real)) by (nonlinear_arith)
        requires
            0 as real <= g <= 1 as real,
            sized(v, bound),
            bound >= 0 as real,
            done ==> v == 0 as real,
    ;
    let next = L::times(gamma, future);
    assert(rd.shows(next, g * v, rd.slack));
    sum_shows::<L>(rd, reward, next, rd.of(reward), g * v, 0 as real, rd.slack);
    difference_shows::<L>(
        rd,
        L::plus(reward, next),
        v_s,
        rd.of(reward) + g * v,
        rd.of(v_s),
        rd.slack + rd.slack,
        0 as real,
    );
    replay_error_is_bounded(raw_replay_error::<L>(gamma, reward, done, v_next, v_s));
}

} // verus!
