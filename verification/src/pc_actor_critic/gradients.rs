//! Gradients of the actor's layers, from the output down, and how importance records take
//! them in.

use vstd::prelude::*;

use crate::elementwise::clip;
use crate::linalg::LinAlg;
use crate::networks::{layer_views, Activation, InferResult, PcActor};
use crate::pc_actor_critic::agent::PcActorCritic;
use crate::pc_actor_critic::fisher::{fisher_views, fishers_fit, FisherView};
use crate::reading::{product_shows, reads, reads_order, sized, sum_shows, Reading};
use crate::scalar::Scalar;

verus! {

/// Distance below which a mixing share counts as all or nothing: `2^-52`.
pub const EPSILON_BITS: u64 = 0x3cb0_0000_0000_0000;

/// Entry-by-entry sum.
pub open spec fn summed<L: LinAlg>(a: Seq<Scalar>, b: Seq<Scalar>) -> Seq<Scalar> {
    Seq::new(a.len(), |i: int| L::plus(a[i], b[i]))
}

/// Every entry multiplied from the right by `k`.
pub open spec fn scaled_by<L: LinAlg>(a: Seq<Scalar>, k: Scalar) -> Seq<Scalar> {
    Seq::new(a.len(), |i: int| L::times(a[i], k))
}

/// The gradient of a layer: the error at its output through the derivative of its
/// activation, within the clip.
pub open spec fn local_gradient<L: LinAlg>(
    error: Seq<Scalar>,
    output: Seq<Scalar>,
    activation: Activation,
) -> Seq<Scalar> {
    Seq::new(
        error.len(),
        |i: int|
            L::times(error[i], L::slope(output, activation)[i]).clamped(clip().negated(), clip()),
    )
}

/// The mixing share takes the back-propagated error alone.
pub open spec fn backprop_alone<L: LinAlg>(share: Scalar) -> bool {
    L::minus(share, Scalar::one()).magnitude_of().below(Scalar { bits: EPSILON_BITS })
}

/// Whether the error that comes back is used alone.
pub fn is_backprop_alone<L: LinAlg>(share: Scalar) -> (r: bool)
    ensures
        r == backprop_alone::<L>(share),
{
    L::scalar_sub(share, Scalar::one()).abs().lt(Scalar::from_bits(EPSILON_BITS))
}

/// The mixing share takes the prediction error alone.
pub open spec fn prediction_alone(share: Scalar) -> bool {
    share.magnitude_of().below(Scalar { bits: EPSILON_BITS })
}

/// The output of a hidden layer before its skip connection.
pub open spec fn layer_output<L: LinAlg>(
    actor: PcActor<L>,
    infer: InferResult<L>,
    i: int,
) -> Seq<Scalar> {
    if actor.skip_index(i) is Some {
        L::seq(infer.tanh_components@[i]->0)
    } else {
        L::seq(infer.hidden_states@[i])
    }
}

/// The error of a hidden layer: back-propagated error and prediction error, mixed.
pub open spec fn blended<L: LinAlg>(
    actor: PcActor<L>,
    infer: InferResult<L>,
    i: int,
    back: Seq<Scalar>,
) -> Seq<Scalar> {
    let share = actor.config.local_lambda;
    let error = L::seq(infer.prediction_errors@[actor.config.hidden_layers@.len() - 1 - i]);
    if backprop_alone::<L>(share) {
        back
    } else if prediction_alone(share) {
        error
    } else {
        summed::<L>(
            scaled_by::<L>(back, share),
            scaled_by::<L>(error, L::minus(Scalar::one(), share)),
        )
    }
}

/// The gradient of a hidden layer.
pub open spec fn hidden_gradient<L: LinAlg>(
    actor: PcActor<L>,
    infer: InferResult<L>,
    i: int,
    back: Seq<Scalar>,
) -> Seq<Scalar> {
    let error = blended(actor, infer, i, back);
    local_gradient::<L>(
        match actor.skip_index(i) {
            Some(a) => scaled_by::<L>(error, actor.rezero_alpha@[a as int]),
            None => error,
        },
        layer_output(actor, infer, i),
        actor.layers@[i].activation,
    )
}

/// The error that a hidden layer hands to the layer below, along its skip connection too.
pub open spec fn passed_down<L: LinAlg>(
    actor: PcActor<L>,
    infer: InferResult<L>,
    i: int,
    back: Seq<Scalar>,
) -> Seq<Scalar> {
    let through = L::product(
        L::grid(actor.layers@[i].weights).transposed(),
        hidden_gradient(actor, infer, i, back),
    );
    match actor.skip_index(i) {
        Some(a) => match actor.skip_projections@[a as int] {
            Some(m) => summed::<L>(
                through,
                L::product(L::grid(m).transposed(), blended(actor, infer, i, back)),
            ),
            None => summed::<L>(through, blended(actor, infer, i, back)),
        },
        None => through,
    }
}

/// The error that arrives at a hidden layer from above, given the output layer's gradient.
pub open spec fn arriving<L: LinAlg>(
    actor: PcActor<L>,
    infer: InferResult<L>,
    top: Seq<Scalar>,
    i: int,
) -> Seq<Scalar>
    decreases actor.config.hidden_layers@.len() - i,
{
    if i >= actor.config.hidden_layers@.len() - 1 {
        L::product(L::grid(actor.layers@.last().weights).transposed(), top)
    } else {
        passed_down(actor, infer, i + 1, arriving(actor, infer, top, i + 1))
    }
}

/// The gradient of the output layer.
pub open spec fn top_gradient<L: LinAlg>(
    actor: PcActor<L>,
    infer: InferResult<L>,
    delta: Seq<Scalar>,
) -> Seq<Scalar> {
    local_gradient::<L>(delta, L::seq(infer.y_conv), actor.layers@.last().activation)
}

/// The gradient of a layer, given the error at the output.
pub open spec fn layer_gradient<L: LinAlg>(
    actor: PcActor<L>,
    infer: InferResult<L>,
    delta: Seq<Scalar>,
    i: int,
) -> Seq<Scalar> {
    let top = top_gradient(actor, infer, delta);
    if i >= actor.config.hidden_layers@.len() {
        top
    } else {
        hidden_gradient(actor, infer, i, arriving(actor, infer, top, i))
    }
}

/// A hidden layer and its inference results fit the layers around it.
pub open spec fn layer_ready<L: LinAlg>(
    actor: PcActor<L>,
    infer: InferResult<L>,
    i: int,
) -> bool {
    let w = L::grid(actor.layers@[i].weights);
    let n = actor.config.hidden_layers@.len();
    &&& L::grid(actor.layers@[i + 1].weights).cols == w.rows
    &&& match actor.skip_index(i) {
        Some(a) => {
            &&& i < infer.tanh_components@.len()
            &&& infer.tanh_components@[i] is Some
            &&& L::seq(infer.tanh_components@[i]->0).len() == w.rows
            &&& a < actor.rezero_alpha@.len()
            &&& a < actor.skip_projections@.len()
            &&& match actor.skip_projections@[a as int] {
                Some(m) => L::grid(m).same_shape(w),
                None => w.rows == w.cols,
            }
        },
        None => i < infer.hidden_states@.len() && L::seq(infer.hidden_states@[i]).len() == w.rows,
    }
    &&& !backprop_alone::<L>(actor.config.local_lambda) ==> {
        &&& n - 1 - i < infer.prediction_errors@.len()
        &&& L::seq(infer.prediction_errors@[n - 1 - i]).len() == w.rows
    }
}

/// The actor is a chain of layers, and the inference results fit it.
pub open spec fn chain_ready<L: LinAlg>(actor: PcActor<L>, infer: InferResult<L>) -> bool {
    let n = actor.config.hidden_layers@.len();
    &&& actor.layers@.len() == n + 1
    &&& L::seq(infer.y_conv).len() == L::grid(actor.layers@[n as int].weights).rows
    &&& forall|i: int| 0 <= i < n ==> #[trigger] layer_ready(actor, infer, i)
}

/// The records after each layer's gradient was taken in.
pub open spec fn absorbed_all<L: LinAlg>(
    fishers: Seq<FisherView>,
    actor: PcActor<L>,
    infer: InferResult<L>,
    delta: Seq<Scalar>,
    beta: Scalar,
) -> Seq<FisherView> {
    Seq::new(
        fishers.len(),
        |i: int| fishers[i].absorbed::<L>(layer_gradient(actor, infer, delta, i), beta),
    )
}

/// The gradient of a layer.
pub fn extract_gradient<L: LinAlg>(
    backend: &L,
    error: &L::Vector,
    output: &L::Vector,
    activation: Activation,
) -> (r: L::Vector)
    requires
        L::seq(*error).len() == L::seq(*output).len(),
    ensures
        L::seq(r) == local_gradient::<L>(L::seq(*error), L::seq(*output), activation),
{
    let slope = backend.apply_derivative(output, activation);
    let mut grad = backend.vec_hadamard(error, &slope);
    backend.clip_vec(&mut grad, clip());
    assert(L::seq(grad) =~= local_gradient::<L>(L::seq(*error), L::seq(*output), activation));
    grad
}

fn blend<L: LinAlg>(
    backend: &L,
    actor: &PcActor<L>,
    infer: &InferResult<L>,
    i: usize,
    back: &L::Vector,
) -> (r: L::Vector)
    requires
        i < actor.config.hidden_layers@.len(),
        layer_ready(*actor, *infer, i as int),
        L::seq(*back).len() == L::grid(actor.layers@[i as int].weights).rows,
    ensures
        L::seq(r) == blended(*actor, *infer, i as int, L::seq(*back)),
        L::seq(r).len() == L::seq(*back).len(),
{
    let share = actor.config.local_lambda;
    let eps = Scalar::from_bits(EPSILON_BITS);
    if is_backprop_alone::<L>(share) {
        L::vec_clone(back)
    } else {
        let error = &infer.prediction_errors[actor.config.hidden_layers.len() - 1 - i];
        if share.abs().lt(eps) {
            L::vec_clone(error)
        } else {
            let a = backend.vec_scale(back, share);
            let b = backend.vec_scale(error, L::scalar_sub(Scalar::one(), share));
            let r = backend.vec_add(&a, &b);
            assert(L::seq(a) =~= scaled_by::<L>(L::seq(*back), share));
            assert(L::seq(b) =~= scaled_by::<L>(
                L::seq(*error),
                L::minus(Scalar::one(), share),
            ));
            assert(L::seq(r) =~= summed::<L>(L::seq(a), L::seq(b)));
            r
        }
    }
}

fn gradient_of_hidden<L: LinAlg>(
    backend: &L,
    actor: &PcActor<L>,
    infer: &InferResult<L>,
    i: usize,
    error: &L::Vector,
    Ghost(back): Ghost<Seq<Scalar>>,
) -> (r: L::Vector)
    requires
        i < actor.config.hidden_layers@.len(),
        actor.layers@.len() == actor.config.hidden_layers@.len() + 1,
        layer_ready(*actor, *infer, i as int),
        L::seq(*error) == blended(*actor, *infer, i as int, back),
        L::seq(*error).len() == L::grid(actor.layers@[i as int].weights).rows,
    ensures
        L::seq(r) == hidden_gradient(*actor, *infer, i as int, back),
        L::seq(r).len() == L::seq(*error).len(),
{
    match actor.skip_alpha_index(i) {
        Some(a) => {
            let scaled = backend.vec_scale(error, actor.rezero_alpha[a]);
            assert(L::seq(scaled) =~= scaled_by::<L>(
                L::seq(*error),
                actor.rezero_alpha@[a as int],
            ));
            match &infer.tanh_components[i] {
                Some(out) => extract_gradient(backend, &scaled, out, actor.layers[i].activation),
                None => L::vec_clone(error),
            }
        },
        None => extract_gradient(
            backend,
            error,
            &infer.hidden_states[i],
            actor.layers[i].activation,
        ),
    }
}

fn hand_down<L: LinAlg>(
    backend: &L,
    actor: &PcActor<L>,
    infer: &InferResult<L>,
    i: usize,
    grad: &L::Vector,
    error: &L::Vector,
    Ghost(back): Ghost<Seq<Scalar>>,
) -> (r: L::Vector)
    requires
        i < actor.config.hidden_layers@.len(),
        actor.layers@.len() == actor.config.hidden_layers@.len() + 1,
        layer_ready(*actor, *infer, i as int),
        L::seq(*grad) == hidden_gradient(*actor, *infer, i as int, back),
        L::seq(*error) == blended(*actor, *infer, i as int, back),
        L::seq(*grad).len() == L::grid(actor.layers@[i as int].weights).rows,
        L::seq(*error).len() == L::grid(actor.layers@[i as int].weights).rows,
    ensures
        L::seq(r) == passed_down(*actor, *infer, i as int, back),
        L::seq(r).len() == L::grid(actor.layers@[i as int].weights).cols,
{
    let wt = backend.mat_transpose(&actor.layers[i].weights);
    let through = backend.mat_vec_mul(&wt, grad);
    match actor.skip_alpha_index(i) {
        Some(a) => match &actor.skip_projections[a] {
            Some(m) => {
                let mt = backend.mat_transpose(m);
                let along = backend.mat_vec_mul(&mt, error);
                let r = backend.vec_add(&through, &along);
                assert(L::seq(r) =~= summed::<L>(L::seq(through), L::seq(along)));
                r
            },
            None => {
                let r = backend.vec_add(&through, error);
                assert(L::seq(r) =~= summed::<L>(L::seq(through), L::seq(*error)));
                r
            },
        },
        None => through,
    }
}

impl<L: LinAlg> PcActorCritic<L> {
    /// Lets the actor's importance records take in the gradient of each layer.
    pub fn accumulate_actor_fisher_ema(&mut self, delta: &[Scalar], infer: &InferResult<L>)
        requires
            chain_ready(old(self).actor, *infer),
            delta@.len() == L::seq(infer.y_conv).len(),
            fishers_fit(
                fisher_views(old(self).actor_fisher@),
                layer_views(old(self).actor.layers@),
            ),
        ensures
            fisher_views(final(self).actor_fisher@) == absorbed_all(
                fisher_views(old(self).actor_fisher@),
                old(self).actor,
                *infer,
                delta@,
                old(self).config.fisher_ema_beta,
            ),
            *final(self)
                == (PcActorCritic { actor_fisher: final(self).actor_fisher, ..*old(self) }),
    {
        let ghost before = fisher_views(self.actor_fisher@);
        let ghost layers = layer_views(self.actor.layers@);
        let n: usize = self.actor.config.hidden_layers.len();
        let beta = self.config.fisher_ema_beta;
        let error = self.backend.vec_from_slice(delta);
        let grad = extract_gradient(
            &self.backend,
            &error,
            &infer.y_conv,
            self.actor.layers[n].activation,
        );
        let ghost top = top_gradient(self.actor, *infer, delta@);
        assert(L::seq(grad) == top);
        assert(before[n as int].fits(layers[n as int]));
        assert(before[n as int] == self.actor_fisher@[n as int]@);
        self.actor_fisher[n].absorb(&self.backend, &grad, beta);
        let wt = self.backend.mat_transpose(&self.actor.layers[n].weights);
        let mut back = self.backend.mat_vec_mul(&wt, &grad);
        let mut i: usize = n;
        while i > 0
            invariant
                i <= n,
                n == self.actor.config.hidden_layers@.len(),
                *self == (PcActorCritic { actor_fisher: self.actor_fisher, ..*old(self) }),
                before == fisher_views(old(self).actor_fisher@),
                layers == layer_views(self.actor.layers@),
                beta == self.config.fisher_ema_beta,
                chain_ready(self.actor, *infer),
                fishers_fit(before, layers),
                top == top_gradient(self.actor, *infer, delta@),
                self.actor_fisher@.len() == before.len(),
                L::seq(back) == arriving(self.actor, *infer, top, i - 1),
                L::seq(back).len() == L::grid(self.actor.layers@[i as int].weights).cols,
                forall|j: int|
                    0 <= j < i ==> (#[trigger] self.actor_fisher@[j]) == old(self).actor_fisher@[j],
                forall|j: int|
                    i <= j < before.len() ==> (#[trigger] self.actor_fisher@[j])@
                        == before[j].absorbed::<L>(
                        layer_gradient(self.actor, *infer, delta@, j),
                        beta,
                    ),
            decreases i,
        {
            let k: usize = i - 1;
            assert(layer_ready(self.actor, *infer, k as int));
            let ghost b = L::seq(back);
            let error = blend(&self.backend, &self.actor, infer, k, &back);
            let grad = gradient_of_hidden(
                &self.backend,
                &self.actor,
                infer,
                k,
                &error,
                Ghost(b),
            );
            assert(before[k as int].fits(layers[k as int]));
            assert(before[k as int] == self.actor_fisher@[k as int]@);
            self.actor_fisher[k].absorb(&self.backend, &grad, beta);
            back = hand_down(&self.backend, &self.actor, infer, k, &grad, &error, Ghost(b));
            i = k;
        }
        assert(fisher_views(self.actor_fisher@) =~= absorbed_all(
            before,
            self.actor,
            *infer,
            delta@,
            beta,
        ));
    }
}

/// The error of a hidden layer mixes what comes back from above with its own prediction error: the
/// first by the configured share, the second by the rest.
pub proof fn errors_are_mixed_by_the_share<L: LinAlg>(
    rd: Reading,
    actor: PcActor<L>,
    infer: InferResult<L>,
    i: int,
    back: Seq<Scalar>,
    j: int,
    bound: real,
)
    requires
        reads::<L>(rd),
        !backprop_alone::<L>(actor.config.local_lambda),
        !prediction_alone(actor.config.local_lambda),
        actor.config.local_lambda.finite(),
        0 as real <= rd.of(actor.config.local_lambda) <= 1 as real,
        0 <= j < back.len(),
        ({
            let own = L::seq(infer.prediction_errors@[actor.config.hidden_layers@.len() - 1 - i]);
            &&& j < own.len()
            &&& own[j].finite() && sized(rd.of(own[j]), bound)
        }),
        back[j].finite(),
        sized(rd.of(back[j]), bound),
        bound >= 0 as real,
        1 as real <= rd.top,
        bound + bound + bound * rd.slack + rd.slack + rd.slack <= rd.top,
    ensures
        ({
            let own = L::seq(infer.prediction_errors@[actor.config.hidden_layers@.len() - 1 - i]);
            let share = rd.of(actor.config.local_lambda);
            rd.shows(
                blended(actor, infer, i, back)[j],
                share * rd.of(back[j]) + (1 as real - share) * rd.of(own[j]),
                bound * rd.slack + rd.slack + rd.slack + rd.slack,
            )
        }),
{
    let own = L::seq(infer.prediction_errors@[actor.config.hidden_layers@.len() - 1 - i]);
    let share = actor.config.local_lambda;
    let l = rd.of(share);
    let s = rd.slack;
    let a = rd.of(back[j]);
    let b = rd.of(own[j]);
    let rest = L::minus(Scalar::one(), share);
    assert(rd.shows(rest, 1 as real - l, s));
    assert((0 as real) * (1 as real + 0 as real) + bound * (0 as real) == 0 as real && bound * (
    1 as real) == bound && (0 as real) * (1 as real + s) + bound * s == bound * s && bound * s
        >= 0 as real) by (nonlinear_arith)
        requires
            bound >= 0 as real,
            s >= 0 as real,
    ;
    product_shows::<L>(rd, back[j], share, a, l, 0 as real, 0 as real, bound, 1 as real);
    product_shows::<L>(rd, own[j], rest, b, 1 as real - l, 0 as real, s, bound, 1 as real);
    assert(a * l == l * a && b * (1 as real - l) == (1 as real - l) * b) by (nonlinear_arith);
    let m = 1 as real - l;
    assert(sized(l * a, l * bound)) by (nonlinear_arith)
        requires
            l >= 0 as real,
            sized(a, bound),
    ;
    assert(sized(m * b, m * bound)) by (nonlinear_arith)
        requires
            m >= 0 as real,
            sized(b, bound),
    ;
    assert(l * bound + m * bound == bound) by (nonlinear_arith)
        requires
            m == 1 as real - l,
    ;
    sum_shows::<L>(
        rd,
        L::times(back[j], share),
        L::times(own[j], rest),
        a * l,
        b * (1 as real - l),
        s,
        bound * s + s,
    );
}

/// The gradient of a layer is the error at its output times the slope of its activation there,
/// wherever that is within the clip.
pub proof fn gradient_is_error_times_slope<L: LinAlg>(
    rd: Reading,
    error: Seq<Scalar>,
    output: Seq<Scalar>,
    activation: Activation,
    j: int,
)
    requires
        reads::<L>(rd),
        reads_order(rd),
        0 <= j < error.len(),
        error[j].finite(),
        L::slope(output, activation)[j].finite(),
        sized(
            rd.of(error[j]) * rd.of(L::slope(output, activation)[j]),
            rd.of(clip()) - rd.slack,
        ),
        rd.of(clip()) <= rd.top,
    ensures
        rd.shows(
            local_gradient::<L>(error, output, activation)[j],
            rd.of(error[j]) * rd.of(L::slope(output, activation)[j]),
            rd.slack,
        ),
{
    let x = L::times(error[j], L::slope(output, activation)[j]);
    assert(clip().finite());
    assert(rd.of(clip().negated()) == -rd.of(clip()));
    assert(!x.below(clip().negated()));
    assert(!clip().below(x));
}

} // verus!
