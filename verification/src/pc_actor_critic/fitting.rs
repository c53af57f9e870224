//! Whether networks, inference results and importance records fit each other.

use vstd::prelude::*;

use crate::linalg::LinAlg;
use crate::networks::{
    grid_opt, layer_views, topology_reflexive, topology_symmetric, topology_transitive,
    InferResult, Layer, LayerView, MlpCritic, PcActor,
};
use crate::pc_actor_critic::agent::PcActorCritic;
use crate::pc_actor_critic::bookkeeping::layers_correspond;
use crate::pc_actor_critic::fisher::{fisher_views, fishers_fit, FisherState, FisherView};
use crate::pc_actor_critic::gradients::{chain_ready, is_backprop_alone, layer_ready};
use crate::pc_actor_critic::policy::all_below;

verus! {

/// Whether every position is below `n`.
pub fn positions_below(valid: &[usize], n: usize) -> (r: bool)
    ensures
        r == all_below(valid@, n as nat),
{
    let mut i: usize = 0;
    while i < valid.len()
        invariant
            i <= valid@.len(),
            forall|k: int| 0 <= k < i ==> (#[trigger] valid@[k]) < n,
        decreases valid@.len() - i,
    {
        if valid[i] >= n {
            return false;
        }
        i = i + 1;
    }
    true
}

fn same_size<L: LinAlg>(backend: &L, a: &L::Matrix, b: &L::Matrix) -> (r: bool)
    ensures
        r == L::grid(*a).same_shape(L::grid(*b)),
{
    backend.mat_rows(a) == backend.mat_rows(b) && backend.mat_cols(a) == backend.mat_cols(b)
}

fn layer_fits<L: LinAlg>(backend: &L, a: &Layer<L>, b: &Layer<L>) -> (r: bool)
    ensures
        r == a@.same_shape(b@),
{
    same_size(backend, &a.weights, &b.weights) && backend.vec_len(&a.bias) == backend.vec_len(
        &b.bias,
    )
}

/// Whether the layers of two networks correspond in shape.
pub fn layers_fit<L: LinAlg>(backend: &L, a: &Vec<Layer<L>>, b: &Vec<Layer<L>>) -> (r: bool)
    ensures
        r == layers_correspond(layer_views(a@), layer_views(b@)),
{
    if a.len() != b.len() {
        return false;
    }
    let ghost x = layer_views(a@);
    let ghost y = layer_views(b@);
    let mut i: usize = 0;
    while i < a.len()
        invariant
            i <= a@.len(),
            a@.len() == b@.len(),
            x == layer_views(a@),
            y == layer_views(b@),
            forall|k: int| 0 <= k < i ==> (#[trigger] x[k]).same_shape(y[k]),
        decreases a@.len() - i,
    {
        assert(x[i as int] == a@[i as int]@ && y[i as int] == b@[i as int]@);
        if !layer_fits(backend, &a[i], &b[i]) {
            assert(!x[i as int].same_shape(y[i as int]));
            return false;
        }
        i = i + 1;
    }
    true
}

/// One projection can stand for another.
pub open spec fn projection_fits<L: LinAlg>(a: Option<L::Matrix>, b: Option<L::Matrix>) -> bool {
    match (a, b) {
        (Some(x), Some(y)) => L::grid(x).same_shape(L::grid(y)),
        (None, None) => true,
        _ => false,
    }
}

fn projections_fit<L: LinAlg>(
    backend: &L,
    a: &Vec<Option<L::Matrix>>,
    b: &Vec<Option<L::Matrix>>,
) -> (r: bool)
    ensures
        r <==> a@.len() == b@.len() && forall|k: int|
            0 <= k < a@.len() ==> projection_fits::<L>(#[trigger] a@[k], b@[k]),
{
    if a.len() != b.len() {
        return false;
    }
    let mut i: usize = 0;
    while i < a.len()
        invariant
            i <= a@.len(),
            a@.len() == b@.len(),
            forall|k: int| 0 <= k < i ==> projection_fits::<L>(#[trigger] a@[k], b@[k]),
        decreases a@.len() - i,
    {
        let fits = match (&a[i], &b[i]) {
            (Some(x), Some(y)) => same_size(backend, x, y),
            (None, None) => true,
            _ => false,
        };
        if !fits {
            assert(!projection_fits::<L>(a@[i as int], b@[i as int]));
            return false;
        }
        i = i + 1;
    }
    true
}

/// Whether the weights of two actors correspond one to one.
pub fn same_topology<L: LinAlg>(backend: &L, a: &PcActor<L>, b: &PcActor<L>) -> (r: bool)
    ensures
        r == a.weights().same_topology(b.weights()),
{
    let layers = layers_fit(backend, &a.layers, &b.layers);
    let projections = projections_fit(backend, &a.skip_projections, &b.skip_projections);
    let ghost x = a.weights();
    let ghost y = b.weights();
    proof {
        assert(layers <==> x.layers.len() == y.layers.len() && forall|i: int|
            0 <= i < x.layers.len() ==> {
                &&& (#[trigger] x.layers[i]).weights.same_shape(y.layers[i].weights)
                &&& x.layers[i].bias.len() == y.layers[i].bias.len()
            }) by {
            if layers {
                assert forall|i: int| 0 <= i < x.layers.len() implies {
                    &&& (#[trigger] x.layers[i]).weights.same_shape(y.layers[i].weights)
                    &&& x.layers[i].bias.len() == y.layers[i].bias.len()
                } by {
                    assert(x.layers[i].same_shape(y.layers[i]));
                }
            }
        }
        assert forall|i: int|
            0 <= i < a.skip_projections@.len() && i
                < b.skip_projections@.len() implies projection_fits::<L>(
            #[trigger] a.skip_projections@[i],
            b.skip_projections@[i],
        ) == (match (x.skip_projections[i], y.skip_projections[i]) {
            (Some(p), Some(q)) => p.same_shape(q),
            (None, None) => true,
            _ => false,
        }) by {
            assert(x.skip_projections[i] == grid_opt::<L>(a.skip_projections@[i]));
            assert(y.skip_projections[i] == grid_opt::<L>(b.skip_projections@[i]));
        }
        if a.skip_projections@.len() == b.skip_projections@.len() && x.same_topology(y) {
            assert forall|k: int|
                0 <= k < a.skip_projections@.len() implies projection_fits::<L>(
                #[trigger] a.skip_projections@[k],
                b.skip_projections@[k],
            ) by {
                assert(x.skip_projections[k] == grid_opt::<L>(a.skip_projections@[k]));
            }
        }
        if projections {
            assert forall|i: int| 0 <= i < x.skip_projections.len() implies match (
                #[trigger] x.skip_projections[i],
                y.skip_projections[i],
            ) {
                (Some(p), Some(q)) => p.same_shape(q),
                (None, None) => true,
                _ => false,
            } by {
                assert(projection_fits::<L>(a.skip_projections@[i], b.skip_projections@[i]));
            }
        }
    }
    layers && a.rezero_alpha.len() == b.rezero_alpha.len() && projections
}

/// An actor can take the place of another: same topology, same number of hidden layers.
pub open spec fn replaces<L: LinAlg>(new: PcActor<L>, old_actor: PcActor<L>) -> bool {
    &&& new.weights().same_topology(old_actor.weights())
    &&& new.config.hidden_layers@.len() == old_actor.config.hidden_layers@.len()
}

/// The actor that is kept when another comes back: that one where it can take the place.
pub open spec fn actor_kept<L: LinAlg>(new: PcActor<L>, old_actor: PcActor<L>) -> PcActor<L> {
    if replaces(new, old_actor) {
        new
    } else {
        old_actor
    }
}

/// The critic that is kept when another comes back: that one where its layers have the same
/// shapes.
pub open spec fn critic_kept<L: LinAlg>(
    new: MlpCritic<L>,
    old_critic: MlpCritic<L>,
) -> MlpCritic<L> {
    if layers_correspond(layer_views(new.layers@), layer_views(old_critic.layers@)) {
        new
    } else {
        old_critic
    }
}

/// Puts a critic in the place of another, where it fits.
pub fn keep_critic<L: LinAlg>(backend: &L, critic: &mut MlpCritic<L>, new: MlpCritic<L>)
    ensures
        *final(critic) == critic_kept(new, *old(critic)),
        layers_correspond(layer_views(final(critic).layers@), layer_views(old(critic).layers@)),
{
    if layers_fit(backend, &new.layers, &critic.layers) {
        *critic = new;
    }
}

/// Puts an actor in the place of another, where it fits.
pub fn keep_actor<L: LinAlg>(backend: &L, actor: &mut PcActor<L>, new: PcActor<L>)
    ensures
        *final(actor) == actor_kept(new, *old(actor)),
        replaces(*final(actor), *old(actor)),
{
    proof {
        topology_reflexive(actor.weights());
    }
    if same_topology(backend, &new, &*actor) && new.config.hidden_layers.len()
        == actor.config.hidden_layers.len() {
        *actor = new;
    }
}

fn layer_is_ready<L: LinAlg>(
    backend: &L,
    actor: &PcActor<L>,
    infer: &InferResult<L>,
    i: usize,
) -> (r: bool)
    requires
        i < actor.config.hidden_layers@.len(),
        actor.layers@.len() == actor.config.hidden_layers@.len() + 1,
    ensures
        r == layer_ready(*actor, *infer, i as int),
{
    let hidden: usize = actor.layers.len() - 1;
    let rows: usize = backend.mat_rows(&actor.layers[i].weights);
    let cols: usize = backend.mat_cols(&actor.layers[i].weights);
    let chained = backend.mat_cols(&actor.layers[i + 1].weights) == rows;
    let wired = match actor.skip_alpha_index(i) {
        Some(a) => {
            let seen = if i < infer.tanh_components.len() {
                match &infer.tanh_components[i] {
                    Some(v) => backend.vec_len(v) == rows,
                    None => false,
                }
            } else {
                false
            };
            let carried = if a < actor.rezero_alpha.len() && a < actor.skip_projections.len() {
                match &actor.skip_projections[a] {
                    Some(m) => same_size(backend, m, &actor.layers[i].weights),
                    None => rows == cols,
                }
            } else {
                false
            };
            seen && carried
        },
        None => i < infer.hidden_states.len() && backend.vec_len(&infer.hidden_states[i]) == rows,
    };
    let k: usize = hidden - 1 - i;
    let predicted = is_backprop_alone::<L>(actor.config.local_lambda) || (k
        < infer.prediction_errors.len() && backend.vec_len(&infer.prediction_errors[k]) == rows);
    chained && wired && predicted
}

/// Whether an actor is a chain of layers and inference results fit it.
pub fn chain_is_ready<L: LinAlg>(backend: &L, actor: &PcActor<L>, infer: &InferResult<L>) -> (r:
    bool)
    ensures
        r == chain_ready(*actor, *infer),
{
    let n: usize = actor.config.hidden_layers.len();
    if actor.layers.len() == 0 || actor.layers.len() - 1 != n {
        return false;
    }
    if backend.vec_len(&infer.y_conv) != backend.mat_rows(&actor.layers[n].weights) {
        return false;
    }
    let mut i: usize = 0;
    while i < n
        invariant
            i <= n,
            n == actor.config.hidden_layers@.len(),
            actor.layers@.len() == n + 1,
            forall|k: int| 0 <= k < i ==> #[trigger] layer_ready(*actor, *infer, k),
        decreases n - i,
    {
        if !layer_is_ready(backend, actor, infer, i) {
            assert(!layer_ready(*actor, *infer, i as int));
            return false;
        }
        i = i + 1;
    }
    true
}

fn record_fits<L: LinAlg>(backend: &L, f: &FisherState<L>, layer: &Layer<L>) -> (r: bool)
    ensures
        r == f@.fits(layer@),
{
    let size: usize = backend.vec_len(&layer.bias);
    let weights = match &f.theta_snapshot_weights {
        Some(m) => same_size(backend, m, &layer.weights),
        None => true,
    };
    let bias = match &f.theta_snapshot_bias {
        Some(v) => backend.vec_len(v) == size,
        None => true,
    };
    backend.mat_rows(&layer.weights) == size && same_size(
        backend,
        &f.f_total_weights,
        &layer.weights,
    ) && same_size(backend, &f.f_ema_weights, &layer.weights) && backend.vec_len(&f.f_total_bias)
        == size && backend.vec_len(&f.f_ema_bias) == size && weights && bias
}

/// Whether there is one importance record per layer, each of its layer's shape.
pub fn records_fit<L: LinAlg>(
    backend: &L,
    records: &Vec<FisherState<L>>,
    layers: &Vec<Layer<L>>,
) -> (r: bool)
    ensures
        r == fishers_fit(fisher_views(records@), layer_views(layers@)),
{
    if records.len() != layers.len() {
        return false;
    }
    let ghost f = fisher_views(records@);
    let ghost y = layer_views(layers@);
    let mut i: usize = 0;
    while i < records.len()
        invariant
            i <= records@.len(),
            records@.len() == layers@.len(),
            f == fisher_views(records@),
            y == layer_views(layers@),
            forall|k: int| 0 <= k < i ==> (#[trigger] f[k]).fits(y[k]),
        decreases records@.len() - i,
    {
        assert(f[i as int] == records@[i as int]@ && y[i as int] == layers@[i as int]@);
        if !record_fits(backend, &records[i], &layers[i]) {
            assert(!f[i as int].fits(y[i as int]));
            return false;
        }
        i = i + 1;
    }
    true
}

/// Records that fit layers fit any layers that correspond to them.
pub proof fn records_fit_corresponding(f: Seq<FisherView>, a: Seq<LayerView>, b: Seq<LayerView>)
    requires
        fishers_fit(f, a),
        layers_correspond(b, a),
    ensures
        fishers_fit(f, b),
{
    assert forall|i: int| 0 <= i < f.len() implies (#[trigger] f[i]).fits(b[i]) by {
        assert(f[i].fits(a[i]));
        assert(b[i].same_shape(a[i]));
    }
}

/// An actor that can take the place of another has layers of the same shapes.
pub proof fn replacing_keeps_layers<L: LinAlg>(new: PcActor<L>, old_actor: PcActor<L>)
    requires
        replaces(new, old_actor),
    ensures
        layers_correspond(layer_views(new.layers@), layer_views(old_actor.layers@)),
{
    let a = new.weights();
    let b = old_actor.weights();
    assert forall|i: int| 0 <= i < layer_views(new.layers@).len() implies (#[trigger] layer_views(
        new.layers@,
    )[i]).same_shape(layer_views(old_actor.layers@)[i]) by {
        assert(a.layers[i].weights.same_shape(b.layers[i].weights));
    }
}

/// Importance records that fit the networks fit those that take their place.
pub proof fn replacing_keeps_importance<L: LinAlg>(
    before: PcActorCritic<L>,
    after: PcActorCritic<L>,
)
    requires
        before.importance_fits(),
        after.actor_fisher == before.actor_fisher,
        after.critic_fisher == before.critic_fisher,
        replaces(after.actor, before.actor),
        layers_correspond(layer_views(after.critic.layers@), layer_views(before.critic.layers@)),
    ensures
        after.importance_fits(),
{
    replacing_keeps_layers(after.actor, before.actor);
    if before.actor_fisher@.len() > 0 {
        records_fit_corresponding(
            fisher_views(before.actor_fisher@),
            layer_views(before.actor.layers@),
            layer_views(after.actor.layers@),
        );
    }
    if before.critic_fisher@.len() > 0 {
        records_fit_corresponding(
            fisher_views(before.critic_fisher@),
            layer_views(before.critic.layers@),
            layer_views(after.critic.layers@),
        );
    }
}

/// Layers of corresponding shapes, with everything else of the same size, make the same
/// topology.
pub proof fn corresponding_layers_keep_topology<L: LinAlg>(a: PcActor<L>, b: PcActor<L>)
    requires
        layers_correspond(layer_views(a.layers@), layer_views(b.layers@)),
        a.rezero_alpha == b.rezero_alpha,
        a.skip_projections == b.skip_projections,
    ensures
        a.weights().same_topology(b.weights()),
{
    let x = a.weights();
    let y = b.weights();
    assert forall|i: int| 0 <= i < x.layers.len() implies {
        &&& (#[trigger] x.layers[i]).weights.same_shape(y.layers[i].weights)
        &&& x.layers[i].bias.len() == y.layers[i].bias.len()
    } by {
        assert(x.layers[i].same_shape(y.layers[i]));
    }
}

/// Anchors that fit the actor fit the one that takes its place.
pub proof fn replacing_keeps_anchors<L: LinAlg>(before: PcActorCritic<L>, after: PcActorCritic<L>)
    requires
        before.anchors_fit(),
        after.polyak_target == before.polyak_target,
        after.frozen_champion == before.frozen_champion,
        after.actor.weights().same_topology(before.actor.weights()),
    ensures
        after.anchors_fit(),
{
    let a = before.actor.weights();
    let b = after.actor.weights();
    topology_symmetric(b, a);
    if before.polyak_target is Some {
        topology_transitive(before.polyak_target->0.weights(), a, b);
    }
    if before.frozen_champion is Some {
        topology_transitive(before.frozen_champion->0.weights(), a, b);
    }
}

} // verus!
