//! What follows an update of the actor: weights drawn back toward their snapshots, the Polyak
//! target moved along, and the step remembered.

use vstd::prelude::*;

use crate::elementwise::{
    clip, draw_back_mat, draw_back_vec, drawn_back, following_moves_a_share_of_the_way, smooth,
    smoothed, smoothing_keeps_a_share, weights_are_drawn_toward_their_snapshots,
};
use crate::linalg::{Grid, LinAlg};
use crate::networks::{activations, layer_views, InferResult, Layer, LayerView};
use crate::numeric::{rms, root_mean_square};
use crate::pc_actor_critic::agent::PcActorCritic;
use crate::pc_actor_critic::config::PcActorCriticConfig;
use crate::pc_actor_critic::control::same_besides_weights;
use crate::pc_actor_critic::fisher::{fisher_views, fishers_fit, FisherView};
use crate::pc_actor_critic::learning::{ticked_times, ActorUpdate, LearnStep};
use crate::pc_actor_critic::scaling::{remembered, LearnMode};
use crate::pc_actor_critic::trajectory::vector_views;
use crate::reading::{product_shows, reads, reads_order, sized, Reading};
use crate::scalar::{clamped_is_within, Scalar, SIGN_BITS};

verus! {

/// The learning rate of a layer: hidden layers learn slower by their decay, where there is
/// one.
pub open spec fn layer_rate<L: LinAlg>(
    rate: Scalar,
    scale: Scalar,
    decay: Seq<Scalar>,
    hidden: nat,
    i: int,
) -> Scalar {
    L::times(
        rate,
        if i < hidden && decay.len() > 0 {
            L::times(scale, decay[i])
        } else {
            scale
        },
    )
}

impl LayerView {
    /// The layer drawn back toward its snapshot; a layer without one stays as it is.
    pub open spec fn consolidated<L: LinAlg>(
        self,
        before: LayerView,
        importance: FisherView,
        rate: Scalar,
        strength: Scalar,
    ) -> LayerView {
        match (importance.snapshot_weights, importance.snapshot_bias) {
            (Some(w), Some(b)) => LayerView {
                weights: Grid::tabulate(
                    self.weights.rows,
                    self.weights.cols,
                    |r: int, c: int|
                        drawn_back::<L>(
                            self.weights.at(r, c),
                            before.weights.at(r, c),
                            w.at(r, c),
                            importance.total_weights.at(r, c),
                            rate,
                            strength,
                        ),
                ),
                bias: Seq::new(
                    self.bias.len(),
                    |i: int|
                        drawn_back::<L>(
                            self.bias[i],
                            before.bias[i],
                            b[i],
                            importance.total_bias[i],
                            rate,
                            strength,
                        ),
                ),
            },
            _ => self,
        }
    }

    /// The same shape.
    pub open spec fn same_shape(self, other: LayerView) -> bool {
        self.weights.same_shape(other.weights) && self.bias.len() == other.bias.len()
    }
}

/// Smoothed prediction errors after a step; layers without an error keep theirs.
pub open spec fn errors_after<L: LinAlg>(
    config: PcActorCriticConfig,
    average: Seq<Scalar>,
    errors: Seq<Seq<Scalar>>,
) -> Seq<Scalar> {
    if config.adaptive_consolidation {
        Seq::new(
            average.len(),
            |i: int|
                if i < errors.len() {
                    smoothed::<L>(
                        average[i],
                        root_mean_square::<L>(errors[i]),
                        config.consolidation_ema_beta,
                    )
                } else {
                    average[i]
                },
        )
    } else {
        average
    }
}

/// Two networks whose layers correspond in shape.
pub open spec fn layers_correspond(a: Seq<LayerView>, b: Seq<LayerView>) -> bool {
    &&& a.len() == b.len()
    &&& forall|i: int| 0 <= i < a.len() ==> (#[trigger] a[i]).same_shape(b[i])
}

impl<L: LinAlg> PcActorCritic<L> {
    /// The actor's layers after they were drawn back.
    pub open spec fn consolidated_layers(
        self,
        before: Seq<LayerView>,
        scale: Scalar,
        decay: Seq<Scalar>,
    ) -> Seq<LayerView> {
        Seq::new(
            self.actor.layers@.len(),
            |i: int|
                self.actor.layers@[i]@.consolidated::<L>(
                    before[i],
                    self.actor_fisher@[i]@,
                    layer_rate::<L>(
                        self.actor.config.lr_weights,
                        scale,
                        decay,
                        self.actor.config.hidden_layers@.len(),
                        i,
                    ),
                    self.config.ewc_lambda,
                ),
        )
    }

    /// An update that was carried out: the layers kept their shapes, and the Polyak target
    /// still corresponds to the actor.
    pub open spec fn update_fits(self, update: ActorUpdate<L>) -> bool {
        &&& update.before matches Some(b) ==> {
            &&& layers_correspond(layer_views(self.actor.layers@), layer_views(b@))
            &&& fishers_fit(fisher_views(self.actor_fisher@), layer_views(self.actor.layers@))
            &&& update.decay@.len() == 0 || self.actor.config.hidden_layers@.len()
                <= update.decay@.len()
        }
        &&& self.polyak_target matches Some(p) ==> p.weights().same_topology(self.actor.weights())
    }

    /// Recent surprise scores after a step; they are kept for adaptive thresholds only.
    pub open spec fn surprises_after(self, surprise: Scalar) -> Seq<Scalar> {
        if self.config.adaptive_surprise {
            remembered(
                self.surprise_buffer@,
                self.config.surprise_buffer_size as nat,
                surprise,
            )
        } else {
            self.surprise_buffer@
        }
    }

    /// Recent TD errors after a step; replayed steps leave them alone.
    pub open spec fn td_errors_after(self, td_error: Scalar, mode: LearnMode) -> Seq<Scalar> {
        if mode == LearnMode::Online {
            remembered(
                self.td_error_buffer@,
                self.config.surprise_buffer_size as nat,
                td_error.magnitude_of(),
            )
        } else {
            self.td_error_buffer@
        }
    }

    /// The last TD error after a step; replayed steps leave it alone.
    pub open spec fn last_td_after(self, td_error: Scalar, mode: LearnMode) -> Scalar {
        if mode == LearnMode::Online {
            td_error
        } else {
            self.last_td_error
        }
    }

    /// Draws the actor's weights back toward their snapshots.
    pub fn apply_actor_ewc_correction(
        &mut self,
        before: &Vec<Layer<L>>,
        scale: Scalar,
        decay: &Vec<Scalar>,
    )
        requires
            layers_correspond(layer_views(old(self).actor.layers@), layer_views(before@)),
            fishers_fit(
                fisher_views(old(self).actor_fisher@),
                layer_views(old(self).actor.layers@),
            ),
            decay@.len() == 0 || old(self).actor.config.hidden_layers@.len() <= decay@.len(),
        ensures
            layer_views(final(self).actor.layers@) == old(self).consolidated_layers(
                layer_views(before@),
                scale,
                decay@,
            ),
            activations(final(self).actor.layers@) == activations(old(self).actor.layers@),
            final(self).actor.config == old(self).actor.config,
            final(self).actor.skip_alpha == old(self).actor.skip_alpha,
            final(self).actor.rezero_alpha == old(self).actor.rezero_alpha,
            final(self).actor.skip_projections == old(self).actor.skip_projections,
            *final(self) == (PcActorCritic { actor: final(self).actor, ..*old(self) }),
    {
        let ghost start = layer_views(self.actor.layers@);
        let ghost fishers = fisher_views(self.actor_fisher@);
        let ghost snaps = layer_views(before@);
        let ghost end = self.consolidated_layers(snaps, scale, decay@);
        let ghost acts = activations(self.actor.layers@);
        let hidden: usize = self.actor.config.hidden_layers.len();
        let n: usize = self.actor.layers.len();
        let mut i: usize = 0;
        while i < n
            invariant
                i <= n,
                n == start.len(),
                n == self.actor.layers@.len(),
                n == self.actor_fisher@.len(),
                n == before@.len(),
                hidden == self.actor.config.hidden_layers@.len(),
                hidden == old(self).actor.config.hidden_layers@.len(),
                decay@.len() == 0 || hidden <= decay@.len(),
                start == layer_views(old(self).actor.layers@),
                fishers == fisher_views(self.actor_fisher@),
                snaps == layer_views(before@),
                end == old(self).consolidated_layers(snaps, scale, decay@),
                acts.len() == n,
                layers_correspond(start, snaps),
                fishers_fit(fishers, start),
                self.actor.config == old(self).actor.config,
                self.actor.skip_alpha == old(self).actor.skip_alpha,
                self.actor.rezero_alpha == old(self).actor.rezero_alpha,
                self.actor.skip_projections == old(self).actor.skip_projections,
                *self == (PcActorCritic { actor: self.actor, ..*old(self) }),
                forall|j: int| 0 <= j < i ==> (#[trigger] self.actor.layers@[j])@ == end[j],
                forall|j: int| i <= j < n ==> (#[trigger] self.actor.layers@[j])@ == start[j],
                forall|j: int|
                    0 <= j < n ==> (#[trigger] self.actor.layers@[j]).activation == acts[j],
            decreases n - i,
        {
            let slowed = if i < hidden && decay.len() > 0 {
                L::scalar_mul(scale, decay[i])
            } else {
                scale
            };
            let rate = L::scalar_mul(self.actor.config.lr_weights, slowed);
            proof {
                assert(self.actor.layers@[i as int]@ == start[i as int]);
                assert(start[i as int].same_shape(snaps[i as int]));
                assert(fishers[i as int].fits(start[i as int]));
                assert(fishers[i as int] == self.actor_fisher@[i as int]@);
                assert(snaps[i as int] == before@[i as int]@);
            }
            match (
                &self.actor_fisher[i].theta_snapshot_weights,
                &self.actor_fisher[i].theta_snapshot_bias,
            ) {
                (Some(w), Some(b)) => {
                    draw_back_mat(
                        &self.backend,
                        &mut self.actor.layers[i].weights,
                        &before[i].weights,
                        w,
                        &self.actor_fisher[i].f_total_weights,
                        rate,
                        self.config.ewc_lambda,
                    );
                    draw_back_vec(
                        &self.backend,
                        &mut self.actor.layers[i].bias,
                        &before[i].bias,
                        b,
                        &self.actor_fisher[i].f_total_bias,
                        rate,
                        self.config.ewc_lambda,
                    );
                },
                _ => {},
            }
            assert(self.actor.layers@[i as int]@ =~= end[i as int]);
            i = i + 1;
        }
        assert(layer_views(self.actor.layers@) =~= end);
        assert(activations(self.actor.layers@) =~= acts);
    }

    /// Smooths the prediction error of each hidden layer in.
    pub fn smooth_layer_errors(&mut self, infer: &InferResult<L>)
        ensures
            final(self).layer_error_ema@ == errors_after::<L>(
                old(self).config,
                old(self).layer_error_ema@,
                vector_views::<L>(infer.prediction_errors@),
            ),
            *final(self) == (PcActorCritic {
                layer_error_ema: final(self).layer_error_ema,
                ..*old(self)
            }),
    {
        if !self.config.adaptive_consolidation {
            return;
        }
        let beta = self.config.consolidation_ema_beta;
        let ghost start = self.layer_error_ema@;
        let n: usize = self.layer_error_ema.len();
        let mut i: usize = 0;
        while i < n && i < infer.prediction_errors.len()
            invariant
                i <= n,
                i <= infer.prediction_errors@.len(),
                n == start.len(),
                n == self.layer_error_ema@.len(),
                start == old(self).layer_error_ema@,
                beta == self.config.consolidation_ema_beta,
                *self == (PcActorCritic { layer_error_ema: self.layer_error_ema, ..*old(self) }),
                forall|j: int|
                    0 <= j < i ==> (#[trigger] self.layer_error_ema@[j]) == smoothed::<L>(
                        start[j],
                        root_mean_square::<L>(L::seq(infer.prediction_errors@[j])),
                        beta,
                    ),
                forall|j: int| i <= j < n ==> (#[trigger] self.layer_error_ema@[j]) == start[j],
            decreases n - i,
        {
            let error = self.backend.vec_to_vec(&infer.prediction_errors[i]);
            let size = rms::<L>(error.as_slice());
            let x = smooth::<L>(self.layer_error_ema[i], size, beta);
            self.layer_error_ema.set(i, x);
            i = i + 1;
        }
        assert(self.layer_error_ema@ =~= errors_after::<L>(
            old(self).config,
            start,
            vector_views::<L>(infer.prediction_errors@),
        ));
    }

    /// Follows an update of the actor that was planned with `plan_actor_update` and carried
    /// out since.
    pub fn finish_actor_update(
        &mut self,
        step: &LearnStep<L>,
        update: &ActorUpdate<L>,
    )
        requires
            old(self).update_fits(*update),
        ensures
            update_finished(*old(self), *final(self), *step, *update),
    {
        match &update.before {
            Some(b) => {
                self.apply_actor_ewc_correction(b, update.scale, &update.decay);
                proof {
                    correction_keeps_topology(*old(self), *self, *update);
                }
            },
            None => {},
        }
        match &mut self.polyak_target {
            Some(p) => {
                p.polyak_update_from(&self.backend, &self.actor, self.config.polyak_tau);
            },
            None => {},
        }
        self.smooth_layer_errors(step.infer);
        if self.config.adaptive_surprise {
            self.push_surprise(step.infer.surprise_score);
        }
        if step.mode == LearnMode::Online {
            self.last_td_error = update.td_error;
            self.push_td_error(update.td_error.abs());
        }
    }
}

/// An update of the actor was followed up: weights drawn back where a copy of them was kept,
/// the Polyak target moved toward the actor, the step remembered. Nothing else changed.
pub open spec fn update_finished<L: LinAlg>(
    before: PcActorCritic<L>,
    after: PcActorCritic<L>,
    step: LearnStep<L>,
    update: ActorUpdate<L>,
) -> bool {
    &&& layer_views(after.actor.layers@) == match update.before {
        Some(b) => before.consolidated_layers(
            layer_views(b@),
            update.scale,
            update.decay@,
        ),
        None => layer_views(before.actor.layers@),
    }
    &&& same_besides_weights(after.actor, before.actor)
    &&& after.actor.rezero_alpha == before.actor.rezero_alpha
    &&& after.actor.skip_projections == before.actor.skip_projections
    &&& after.polyak_target is Some <==> before.polyak_target is Some
    &&& after.polyak_target matches Some(p) ==> {
        &&& p.weights() == before.polyak_target->0.weights().averaged::<L>(
            after.actor.weights(),
            before.config.polyak_tau,
        )
        &&& same_besides_weights(p, before.polyak_target->0)
    }
    &&& after.layer_error_ema@ == errors_after::<L>(
        before.config,
        before.layer_error_ema@,
        vector_views::<L>(step.infer.prediction_errors@),
    )
    &&& after.surprise_buffer@ == before.surprises_after(step.infer.surprise_score)
    &&& after.last_td_error == before.last_td_after(update.td_error, step.mode)
    &&& after.td_error_buffer@ == before.td_errors_after(
        update.td_error,
        step.mode,
    )
    &&& after == (PcActorCritic {
        actor: after.actor,
        polyak_target: after.polyak_target,
        layer_error_ema: after.layer_error_ema,
        surprise_buffer: after.surprise_buffer,
        last_td_error: after.last_td_error,
        td_error_buffer: after.td_error_buffer,
        ..before
    })
}

/// A weight that was drawn back is within the clip, or is not a number.
pub proof fn drawn_back_weights_are_clipped<L: LinAlg>(
    layer: LayerView,
    before: LayerView,
    importance: FisherView,
    rate: Scalar,
    strength: Scalar,
    r: int,
    c: int,
)
    requires
        importance.snapshot_weights is Some,
        importance.snapshot_bias is Some,
        0 <= r < layer.weights.rows,
        0 <= c < layer.weights.cols,
    ensures
        ({
            let w = layer.consolidated::<L>(before, importance, rate, strength).weights.at(r, c);
            w.nan() || w.within(clip().negated(), clip())
        }),
{
    let x = L::minus(
        layer.weights.at(r, c),
        L::times(
            L::times(L::times(rate, strength), importance.total_weights.at(r, c)),
            L::minus(before.weights.at(r, c), importance.snapshot_weights->0.at(r, c)),
        ),
    );
    if !x.nan() {
        clamped_is_within(x, clip().negated(), clip());
    }
}

/// A layer that has never frozen is not drawn anywhere.
pub proof fn no_snapshot_no_pull<L: LinAlg>(
    layer: LayerView,
    before: LayerView,
    importance: FisherView,
    rate: Scalar,
    strength: Scalar,
)
    requires
        importance.snapshot_weights is None || importance.snapshot_bias is None,
    ensures
        layer.consolidated::<L>(before, importance, rate, strength) == layer,
{
}

/// With a single open action, or a frozen actor, the policy gradient is not pulled toward
/// any other policy.
pub proof fn no_pull_without_a_choice<L: LinAlg>(
    agent: PcActorCritic<L>,
    gradient: Seq<Scalar>,
    step: LearnStep<L>,
    polyak_logits: Seq<Scalar>,
    champion_logits: Seq<Scalar>,
)
    requires
        step.valid_actions@.len() <= 1 || agent.actor_plasticity().is_frozen(),
    ensures
        agent.distilled(gradient, step, polyak_logits, champion_logits) == gradient,
{
}

proof fn ticks_from_zero(n: nat)
    requires
        n <= u64::MAX,
    ensures
        ticked_times(0, n) == n,
    decreases n,
{
    if n > 0 {
        ticks_from_zero((n - 1) as nat);
    }
}

/// After a hard rollback the next one is refused for exactly as many learning steps as the
/// cooldown is long.
pub proof fn cooldown_runs_out<L: LinAlg>(
    rolled: PcActorCritic<L>,
    later: PcActorCritic<L>,
    n: nat,
)
    requires
        rolled.steps_since_last_rollback_hard == 0,
        n <= u64::MAX,
        later.rollback_hard_cooldown_steps == rolled.rollback_hard_cooldown_steps,
        later.steps_since_last_rollback_hard == ticked_times(
            rolled.steps_since_last_rollback_hard,
            n,
        ),
    ensures
        later.cooling_down() <==> n < rolled.rollback_hard_cooldown_steps,
{
    ticks_from_zero(n);
}

proof fn correction_keeps_topology<L: LinAlg>(
    a: PcActorCritic<L>,
    b: PcActorCritic<L>,
    update: ActorUpdate<L>,
)
    requires
        a.update_fits(update),
        update.before is Some,
        layer_views(b.actor.layers@) == a.consolidated_layers(
            layer_views(update.before->0@),
            update.scale,
            update.decay@,
        ),
        b.actor.rezero_alpha == a.actor.rezero_alpha,
        b.actor.skip_projections == a.actor.skip_projections,
        b.polyak_target == a.polyak_target,
    ensures
        b.polyak_target matches Some(p) ==> p.weights().same_topology(b.actor.weights()),
{
    if b.polyak_target is Some {
        let p = b.polyak_target->0.weights();
        let x = a.actor.weights();
        let y = b.actor.weights();
        assert(p.same_topology(x));
        assert forall|i: int| 0 <= i < p.layers.len() implies {
            &&& (#[trigger] p.layers[i]).weights.same_shape(y.layers[i].weights)
            &&& p.layers[i].bias.len() == y.layers[i].bias.len()
        } by {
            assert(p.layers[i].weights.same_shape(x.layers[i].weights));
            assert(x.layers[i] == a.actor.layers@[i]@);
        }
    }
}

/// The Polyak target follows the actor: every weight of it moves, toward the weight that the actor
/// has after the step, by the share that the configuration gives.
pub proof fn target_follows_the_actor<L: LinAlg>(
    rd: Reading,
    before: PcActorCritic<L>,
    after: PcActorCritic<L>,
    step: LearnStep<L>,
    update: ActorUpdate<L>,
    i: int,
    r: int,
    c: int,
    bound: real,
)
    requires
        reads::<L>(rd),
        update_finished(before, after, step, update),
        before.polyak_target is Some,
        0 <= i < before.polyak_target->0.weights().layers.len(),
        0 <= r < before.polyak_target->0.weights().layers[i].weights.rows,
        0 <= c < before.polyak_target->0.weights().layers[i].weights.cols,
        before.polyak_target->0.weights().layers[i].weights.at(r, c).finite(),
        after.actor.weights().layers[i].weights.at(r, c).finite(),
        sized(rd.of(before.polyak_target->0.weights().layers[i].weights.at(r, c)), bound),
        sized(rd.of(after.actor.weights().layers[i].weights.at(r, c)), bound),
        before.config.polyak_tau.finite(),
        0 as real <= rd.of(before.config.polyak_tau) <= 1 as real,
        bound >= 0 as real,
        1 as real <= rd.top,
        bound + bound + bound * rd.slack + rd.slack + rd.slack <= rd.top,
    ensures
        after.polyak_target is Some,
        ({
            let t = rd.of(before.polyak_target->0.weights().layers[i].weights.at(r, c));
            let l = rd.of(after.actor.weights().layers[i].weights.at(r, c));
            rd.shows(
                after.polyak_target->0.weights().layers[i].weights.at(r, c),
                t + rd.of(before.config.polyak_tau) * (l - t),
                bound * rd.slack + rd.slack + rd.slack + rd.slack,
            )
        }),
{
    following_moves_a_share_of_the_way::<L>(
        rd,
        before.polyak_target->0.weights().layers[i].weights.at(r, c),
        after.actor.weights().layers[i].weights.at(r, c),
        before.config.polyak_tau,
        bound,
    );
}

/// The same of its biases.
pub proof fn target_biases_follow_the_actor<L: LinAlg>(
    rd: Reading,
    before: PcActorCritic<L>,
    after: PcActorCritic<L>,
    step: LearnStep<L>,
    update: ActorUpdate<L>,
    i: int,
    j: int,
    bound: real,
)
    requires
        reads::<L>(rd),
        update_finished(before, after, step, update),
        before.polyak_target is Some,
        0 <= i < before.polyak_target->0.weights().layers.len(),
        0 <= j < before.polyak_target->0.weights().layers[i].bias.len(),
        before.polyak_target->0.weights().layers[i].bias[j].finite(),
        after.actor.weights().layers[i].bias[j].finite(),
        sized(rd.of(before.polyak_target->0.weights().layers[i].bias[j]), bound),
        sized(rd.of(after.actor.weights().layers[i].bias[j]), bound),
        before.config.polyak_tau.finite(),
        0 as real <= rd.of(before.config.polyak_tau) <= 1 as real,
        bound >= 0 as real,
        1 as real <= rd.top,
        bound + bound + bound * rd.slack + rd.slack + rd.slack <= rd.top,
    ensures
        after.polyak_target is Some,
        ({
            let t = rd.of(before.polyak_target->0.weights().layers[i].bias[j]);
            let l = rd.of(after.actor.weights().layers[i].bias[j]);
            rd.shows(
                after.polyak_target->0.weights().layers[i].bias[j],
                t + rd.of(before.config.polyak_tau) * (l - t),
                bound * rd.slack + rd.slack + rd.slack + rd.slack,
            )
        }),
{
    following_moves_a_share_of_the_way::<L>(
        rd,
        before.polyak_target->0.weights().layers[i].bias[j],
        after.actor.weights().layers[i].bias[j],
        before.config.polyak_tau,
        bound,
    );
}

/// The same of the weights on its skip connections.
pub proof fn target_skips_follow_the_actor<L: LinAlg>(
    rd: Reading,
    before: PcActorCritic<L>,
    after: PcActorCritic<L>,
    step: LearnStep<L>,
    update: ActorUpdate<L>,
    i: int,
    bound: real,
)
    requires
        reads::<L>(rd),
        update_finished(before, after, step, update),
        before.polyak_target is Some,
        0 <= i < before.polyak_target->0.weights().rezero_alpha.len(),
        before.polyak_target->0.weights().rezero_alpha[i].finite(),
        after.actor.weights().rezero_alpha[i].finite(),
        sized(rd.of(before.polyak_target->0.weights().rezero_alpha[i]), bound),
        sized(rd.of(after.actor.weights().rezero_alpha[i]), bound),
        before.config.polyak_tau.finite(),
        0 as real <= rd.of(before.config.polyak_tau) <= 1 as real,
        bound >= 0 as real,
        1 as real <= rd.top,
        bound + bound + bound * rd.slack + rd.slack + rd.slack <= rd.top,
    ensures
        after.polyak_target is Some,
        ({
            let t = rd.of(before.polyak_target->0.weights().rezero_alpha[i]);
            let l = rd.of(after.actor.weights().rezero_alpha[i]);
            rd.shows(
                after.polyak_target->0.weights().rezero_alpha[i],
                t + rd.of(before.config.polyak_tau) * (l - t),
                bound * rd.slack + rd.slack + rd.slack + rd.slack,
            )
        }),
{
    following_moves_a_share_of_the_way::<L>(
        rd,
        before.polyak_target->0.weights().rezero_alpha[i],
        after.actor.weights().rezero_alpha[i],
        before.config.polyak_tau,
        bound,
    );
}

/// The same of the projections on its skip connections.
pub proof fn target_projections_follow_the_actor<L: LinAlg>(
    rd: Reading,
    before: PcActorCritic<L>,
    after: PcActorCritic<L>,
    step: LearnStep<L>,
    update: ActorUpdate<L>,
    i: int,
    r: int,
    c: int,
    bound: real,
)
    requires
        reads::<L>(rd),
        update_finished(before, after, step, update),
        before.polyak_target is Some,
        0 <= i < before.polyak_target->0.weights().skip_projections.len(),
        before.polyak_target->0.weights().skip_projections[i] is Some,
        after.actor.weights().skip_projections[i] is Some,
        0 <= r < before.polyak_target->0.weights().skip_projections[i]->0.rows,
        0 <= c < before.polyak_target->0.weights().skip_projections[i]->0.cols,
        before.polyak_target->0.weights().skip_projections[i]->0.at(r, c).finite(),
        after.actor.weights().skip_projections[i]->0.at(r, c).finite(),
        sized(rd.of(before.polyak_target->0.weights().skip_projections[i]->0.at(r, c)), bound),
        sized(rd.of(after.actor.weights().skip_projections[i]->0.at(r, c)), bound),
        before.config.polyak_tau.finite(),
        0 as real <= rd.of(before.config.polyak_tau) <= 1 as real,
        bound >= 0 as real,
        1 as real <= rd.top,
        bound + bound + bound * rd.slack + rd.slack + rd.slack <= rd.top,
    ensures
        after.polyak_target is Some,
        after.polyak_target->0.weights().skip_projections[i] is Some,
        ({
            let t = rd.of(before.polyak_target->0.weights().skip_projections[i]->0.at(r, c));
            let l = rd.of(after.actor.weights().skip_projections[i]->0.at(r, c));
            rd.shows(
                after.polyak_target->0.weights().skip_projections[i]->0.at(r, c),
                t + rd.of(before.config.polyak_tau) * (l - t),
                bound * rd.slack + rd.slack + rd.slack + rd.slack,
            )
        }),
{
    following_moves_a_share_of_the_way::<L>(
        rd,
        before.polyak_target->0.weights().skip_projections[i]->0.at(r, c),
        after.actor.weights().skip_projections[i]->0.at(r, c),
        before.config.polyak_tau,
        bound,
    );
}

/// A layer is drawn back at the rate it learned at: the actor's learning rate times the learning
/// scale, and for a hidden layer times its decay where there is one.
pub proof fn layers_are_drawn_back_at_their_rate<L: LinAlg>(
    rd: Reading,
    rate: Scalar,
    scale: Scalar,
    decay: Seq<Scalar>,
    hidden: nat,
    i: int,
    bound: real,
)
    requires
        reads::<L>(rd),
        rate.finite(),
        scale.finite(),
        sized(rd.of(rate), 1 as real),
        sized(rd.of(scale), bound),
        i < hidden && decay.len() > 0 ==> decay[i].finite() && sized(rd.of(decay[i]), 1 as real),
        bound >= 0 as real,
        bound + rd.slack <= rd.top,
    ensures
        rd.shows(
            layer_rate::<L>(rate, scale, decay, hidden, i),
            rd.of(rate) * (if i < hidden && decay.len() > 0 {
                rd.of(scale) * rd.of(decay[i])
            } else {
                rd.of(scale)
            }),
            rd.slack + rd.slack,
        ),
{
    let a = rd.of(rate);
    let k = rd.of(scale);
    let s = rd.slack;
    let slower = i < hidden && decay.len() > 0;
    let f = if slower {
        rd.of(decay[i])
    } else {
        1 as real
    };
    let x = if slower {
        L::times(scale, decay[i])
    } else {
        scale
    };
    assert(sized(k * f, bound) && k * (1 as real) == k) by (nonlinear_arith)
        requires
            sized(k, bound),
            sized(f, 1 as real),
            bound >= 0 as real,
    ;
    assert(rd.shows(x, k * f, s));
    assert((0 as real) * (bound + s) + (1 as real) * s == s && (1 as real) * bound == bound)
        by (nonlinear_arith);
    product_shows::<L>(rd, rate, x, a, k * f, 0 as real, s, 1 as real, bound);
}

/// After a step that the importance records take part in, every weight of the actor has been drawn
/// back toward what it was when the network last froze: by the layer's learning rate times the
/// strength of consolidation times the weight's importance times its distance from there before
/// the step, wherever that is within the clip.
pub proof fn important_weights_are_held<L: LinAlg>(
    rd: Reading,
    before: PcActorCritic<L>,
    after: PcActorCritic<L>,
    step: LearnStep<L>,
    update: ActorUpdate<L>,
    i: int,
    r: int,
    c: int,
    bound: real,
    off: real,
)
    requires
        reads::<L>(rd),
        reads_order(rd),
        update_finished(before, after, step, update),
        update.before is Some,
        0 <= i < before.actor.layers@.len(),
        0 <= r < before.actor.layers@[i]@.weights.rows,
        0 <= c < before.actor.layers@[i]@.weights.cols,
        before.actor_fisher@[i]@.snapshot_weights is Some,
        before.actor_fisher@[i]@.snapshot_bias is Some,
        ({
            let current = before.actor.layers@[i]@.weights.at(r, c);
            let earlier = layer_views(update.before->0@)[i].weights.at(r, c);
            let snapshot = before.actor_fisher@[i]@.snapshot_weights->0.at(r, c);
            let importance = before.actor_fisher@[i]@.total_weights.at(r, c);
            let rate = layer_rate::<L>(
                before.actor.config.lr_weights,
                update.scale,
                update.decay@,
                before.actor.config.hidden_layers@.len(),
                i,
            );
            let strength = before.config.ewc_lambda;
            &&& current.finite() && earlier.finite() && snapshot.finite() && importance.finite()
            &&& rate.finite() && strength.finite()
            &&& sized(rd.of(current), bound)
            &&& sized(rd.of(earlier) - rd.of(snapshot), bound)
            &&& sized(rd.of(importance), bound)
            &&& sized(rd.of(rate) * rd.of(strength), 1 as real)
            &&& sized(
                rd.of(current) - rd.of(rate) * rd.of(strength) * rd.of(importance) * (rd.of(
                    earlier,
                ) - rd.of(snapshot)),
                rd.of(clip()) - off,
            )
        }),
        bound >= 1 as real,
        off == (rd.slack * bound + rd.slack) * (bound + rd.slack) + bound * rd.slack + rd.slack
            + rd.slack,
        bound + bound * bound + bound * bound + off <= rd.top,
    ensures
        ({
            let current = before.actor.layers@[i]@.weights.at(r, c);
            let earlier = layer_views(update.before->0@)[i].weights.at(r, c);
            let snapshot = before.actor_fisher@[i]@.snapshot_weights->0.at(r, c);
            let importance = before.actor_fisher@[i]@.total_weights.at(r, c);
            let rate = layer_rate::<L>(
                before.actor.config.lr_weights,
                update.scale,
                update.decay@,
                before.actor.config.hidden_layers@.len(),
                i,
            );
            rd.shows(
                layer_views(after.actor.layers@)[i].weights.at(r, c),
                rd.of(current) - rd.of(rate) * rd.of(before.config.ewc_lambda) * rd.of(importance)
                    * (rd.of(earlier) - rd.of(snapshot)),
                off,
            )
        }),
{
    weights_are_drawn_toward_their_snapshots::<L>(
        rd,
        before.actor.layers@[i]@.weights.at(r, c),
        layer_views(update.before->0@)[i].weights.at(r, c),
        before.actor_fisher@[i]@.snapshot_weights->0.at(r, c),
        before.actor_fisher@[i]@.total_weights.at(r, c),
        layer_rate::<L>(
            before.actor.config.lr_weights,
            update.scale,
            update.decay@,
            before.actor.config.hidden_layers@.len(),
            i,
        ),
        before.config.ewc_lambda,
        bound,
        off,
    );
}

/// The same of its biases.
pub proof fn important_biases_are_held<L: LinAlg>(
    rd: Reading,
    before: PcActorCritic<L>,
    after: PcActorCritic<L>,
    step: LearnStep<L>,
    update: ActorUpdate<L>,
    i: int,
    j: int,
    bound: real,
    off: real,
)
    requires
        reads::<L>(rd),
        reads_order(rd),
        update_finished(before, after, step, update),
        update.before is Some,
        0 <= i < before.actor.layers@.len(),
        0 <= j < before.actor.layers@[i]@.bias.len(),
        before.actor_fisher@[i]@.snapshot_weights is Some,
        before.actor_fisher@[i]@.snapshot_bias is Some,
        ({
            let current = before.actor.layers@[i]@.bias[j];
            let earlier = layer_views(update.before->0@)[i].bias[j];
            let snapshot = before.actor_fisher@[i]@.snapshot_bias->0[j];
            let importance = before.actor_fisher@[i]@.total_bias[j];
            let rate = layer_rate::<L>(
                before.actor.config.lr_weights,
                update.scale,
                update.decay@,
                before.actor.config.hidden_layers@.len(),
                i,
            );
            let strength = before.config.ewc_lambda;
            &&& current.finite() && earlier.finite() && snapshot.finite() && importance.finite()
            &&& rate.finite() && strength.finite()
            &&& sized(rd.of(current), bound)
            &&& sized(rd.of(earlier) - rd.of(snapshot), bound)
            &&& sized(rd.of(importance), bound)
            &&& sized(rd.of(rate) * rd.of(strength), 1 as real)
            &&& sized(
                rd.of(current) - rd.of(rate) * rd.of(strength) * rd.of(importance) * (rd.of(
                    earlier,
                ) - rd.of(snapshot)),
                rd.of(clip()) - off,
            )
        }),
        bound >= 1 as real,
        off == (rd.slack * bound + rd.slack) * (bound + rd.slack) + bound * rd.slack + rd.slack
            + rd.slack,
        bound + bound * bound + bound * bound + off <= rd.top,
    ensures
        ({
            let current = before.actor.layers@[i]@.bias[j];
            let earlier = layer_views(update.before->0@)[i].bias[j];
            let snapshot = before.actor_fisher@[i]@.snapshot_bias->0[j];
            let importance = before.actor_fisher@[i]@.total_bias[j];
            let rate = layer_rate::<L>(
                before.actor.config.lr_weights,
                update.scale,
                update.decay@,
                before.actor.config.hidden_layers@.len(),
                i,
            );
            rd.shows(
                layer_views(after.actor.layers@)[i].bias[j],
                rd.of(current) - rd.of(rate) * rd.of(before.config.ewc_lambda) * rd.of(importance)
                    * (rd.of(earlier) - rd.of(snapshot)),
                off,
            )
        }),
{
    weights_are_drawn_toward_their_snapshots::<L>(
        rd,
        before.actor.layers@[i]@.bias[j],
        layer_views(update.before->0@)[i].bias[j],
        before.actor_fisher@[i]@.snapshot_bias->0[j],
        before.actor_fisher@[i]@.total_bias[j],
        layer_rate::<L>(
            before.actor.config.lr_weights,
            update.scale,
            update.decay@,
            before.actor.config.hidden_layers@.len(),
            i,
        ),
        before.config.ewc_lambda,
        bound,
        off,
    );
}

/// The smoothed prediction error of a layer keeps the configured share of itself and takes the rest
/// from the root mean square of the layer's errors in the step.
pub proof fn errors_are_smoothed<L: LinAlg>(
    rd: Reading,
    before: PcActorCritic<L>,
    after: PcActorCritic<L>,
    step: LearnStep<L>,
    update: ActorUpdate<L>,
    i: int,
    bound: real,
)
    requires
        reads::<L>(rd),
        update_finished(before, after, step, update),
        before.config.adaptive_consolidation,
        0 <= i < before.layer_error_ema@.len(),
        i < step.infer.prediction_errors@.len(),
        before.layer_error_ema@[i].finite(),
        sized(rd.of(before.layer_error_ema@[i]), bound),
        ({
            let x = root_mean_square::<L>(L::seq(step.infer.prediction_errors@[i]));
            x.finite() && sized(rd.of(x), bound)
        }),
        before.config.consolidation_ema_beta.finite(),
        0 as real <= rd.of(before.config.consolidation_ema_beta) <= 1 as real,
        bound >= 0 as real,
        1 as real <= rd.top,
        bound + bound + rd.slack * bound + rd.slack + rd.slack <= rd.top,
    ensures
        ({
            let x = root_mean_square::<L>(L::seq(step.infer.prediction_errors@[i]));
            let b = rd.of(before.config.consolidation_ema_beta);
            rd.shows(
                after.layer_error_ema@[i],
                b * rd.of(before.layer_error_ema@[i]) + (1 as real - b) * rd.of(x),
                rd.slack * bound + rd.slack + rd.slack + rd.slack,
            )
        }),
{
    let x = root_mean_square::<L>(L::seq(step.infer.prediction_errors@[i]));
    assert(rd.slack * (bound + 0 as real) == rd.slack * bound) by (nonlinear_arith);
    smoothing_keeps_a_share::<L>(
        rd,
        before.layer_error_ema@[i],
        x,
        before.config.consolidation_ema_beta,
        rd.of(x),
        0 as real,
        bound,
    );
    assert(vector_views::<L>(step.infer.prediction_errors@)[i] == L::seq(
        step.infer.prediction_errors@[i],
    ));
}

/// A step of the running episode is remembered: the size of its TD error comes last among the recent
/// errors, and its surprise, where thresholds adapt, last among the recent scores. A replayed step
/// leaves the errors as they were.
pub proof fn histories_take_the_step_in<L: LinAlg>(
    rd: Reading,
    before: PcActorCritic<L>,
    after: PcActorCritic<L>,
    step: LearnStep<L>,
    update: ActorUpdate<L>,
)
    requires
        reads::<L>(rd),
        reads_order(rd),
        update_finished(before, after, step, update),
        update.td_error.finite(),
        step.infer.surprise_score.finite(),
    ensures
        ({
            let error = rd.of(update.td_error);
            &&& step.mode == LearnMode::Online ==> {
                &&& after.last_td_error == update.td_error
                &&& after.td_error_buffer@.len() > 0
                &&& rd.of(after.td_error_buffer@.last()) == if error < 0 as real {
                    -error
                } else {
                    error
                }
            }
            &&& step.mode == LearnMode::Replay ==> {
                &&& after.last_td_error == before.last_td_error
                &&& after.td_error_buffer@ == before.td_error_buffer@
            }
            &&& before.config.adaptive_surprise ==> after.surprise_buffer@.len() > 0
                && after.surprise_buffer@.last() == step.infer.surprise_score
            &&& !before.config.adaptive_surprise ==> after.surprise_buffer@
                == before.surprise_buffer@
        }),
{
    let e = update.td_error;
    assert(Scalar::zero().finite());
    assert(e.below(Scalar::zero()) <==> rd.of(e) < 0 as real);
    if e.bits >= SIGN_BITS {
        assert(e.magnitude_of() == e.negated());
        assert(!Scalar::zero().below(e));
    }
}

} // verus!
