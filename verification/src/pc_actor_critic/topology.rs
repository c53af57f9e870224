//! Which reconfigurations keep an agent's networks as they are.

use vstd::prelude::*;

use crate::error::PcError;
use crate::linalg::LinAlg;
use crate::networks::{activation_name, activation_text, LayerDef};
use crate::pc_actor_critic::config::PcActorCriticConfig;
use crate::pc_actor_critic::validation::config_acceptable;
use crate::scalar::Scalar;
use crate::text::{decimal, decimal_digits, flag, flag_text};

verus! {

/// Four units in the last place of `1.0`.
pub const FOUR_EPSILON_BITS: u64 = 0x3cd0_0000_0000_0000;

/// Equal, or finite and within a few units in the last place of the larger (at least `1.0`).
pub open spec fn nearly_equal<L: LinAlg>(a: Scalar, b: Scalar) -> bool {
    a.same_value(b) || (a.finite() && b.finite() && L::minus(a, b).magnitude_of().at_most(
        L::times(
            Scalar { bits: FOUR_EPSILON_BITS },
            a.magnitude_of().larger(b.magnitude_of()).larger(Scalar::one()),
        ),
    ))
}

/// Compares two settings up to round-trip drift.
pub fn f64_approx_eq<L: LinAlg>(a: Scalar, b: Scalar) -> (r: bool)
    ensures
        r == nearly_equal::<L>(a, b),
{
    if a.num_eq(b) {
        return true;
    }
    if !a.is_finite() || !b.is_finite() {
        return false;
    }
    let scale = a.abs().max(b.abs()).max(Scalar::one());
    L::scalar_sub(a, b).abs().le(L::scalar_mul(Scalar::from_bits(FOUR_EPSILON_BITS), scale))
}

/// The text that reports two values of one setting.
pub open spec fn mismatch_text(
    label: Seq<char>,
    current: Seq<char>,
    new: Seq<char>,
    tail: Seq<char>,
) -> Seq<char> {
    label + " mismatch: current "@ + current + " vs new "@ + new + tail
}

fn mismatch(label: &str, current: &str, new: &str, tail: &str) -> (r: PcError)
    ensures
        r.says(mismatch_text(label@, current@, new@, tail@)),
{
    let mut s = String::from_str(label);
    s.append(" mismatch: current ");
    s.append(current);
    s.append(" vs new ");
    s.append(new);
    s.append(tail);
    PcError::ConfigValidation(s)
}

fn scalar_mismatch<L: LinAlg>(label: &str, current: Scalar, new: Scalar, tail: &str) -> (r: PcError)
    ensures
        r.says(mismatch_text(label@, L::text(current), L::text(new), tail@)),
{
    let a = L::scalar_text(current);
    let b = L::scalar_text(new);
    mismatch(label, a.as_str(), b.as_str(), tail)
}

fn count_mismatch(label: &str, current: usize, new: usize) -> (r: PcError)
    ensures
        r.says(
            mismatch_text(
                label@,
                decimal_digits(current as nat),
                decimal_digits(new as nat),
                Seq::empty(),
            ),
        ),
{
    let a = decimal(current as u64);
    let b = decimal(new as u64);
    proof {
        reveal_strlit("");
        assert(""@ =~= Seq::<char>::empty());
    }
    mismatch(label, a.as_str(), b.as_str(), "")
}

/// How a hidden layer is named in messages.
pub open spec fn layer_label(network: Seq<char>, index: nat, what: Seq<char>) -> Seq<char> {
    network + " hidden layer "@ + decimal_digits(index) + what
}

fn label_of(network: &str, index: usize, what: &str) -> (r: String)
    ensures
        r@ == layer_label(network@, index as nat, what@),
{
    let mut s = String::from_str(network);
    s.append(" hidden layer ");
    let n = decimal(index as u64);
    s.append(n.as_str());
    s.append(what);
    s
}

/// The first difference between two lists of hidden layers, from position `from` on.
pub open spec fn layers_complaint(
    network: Seq<char>,
    current: Seq<LayerDef>,
    new: Seq<LayerDef>,
    tail: Seq<char>,
    from: nat,
) -> Option<Seq<char>>
    decreases current.len() - from,
{
    if from >= current.len() {
        None
    } else if current[from as int].size != new[from as int].size {
        Some(
            mismatch_text(
                layer_label(network, from, " size"@),
                decimal_digits(current[from as int].size as nat),
                decimal_digits(new[from as int].size as nat),
                Seq::empty(),
            ),
        )
    } else if current[from as int].activation != new[from as int].activation {
        Some(
            mismatch_text(
                layer_label(network, from, " activation"@),
                activation_text(current[from as int].activation),
                activation_text(new[from as int].activation),
                tail,
            ),
        )
    } else {
        layers_complaint(network, current, new, tail, from + 1)
    }
}

fn compare_layers(
    network: &str,
    current: &Vec<LayerDef>,
    new: &Vec<LayerDef>,
    tail: &str,
) -> (r: Result<(), PcError>)
    requires
        current@.len() == new@.len(),
    ensures
        r is Ok <==> layers_complaint(network@, current@, new@, tail@, 0) is None,
        r matches Err(e) ==> e.says(layers_complaint(network@, current@, new@, tail@, 0)->0),
{
    let mut i: usize = 0;
    while i < current.len()
        invariant
            i <= current@.len() == new@.len(),
            layers_complaint(network@, current@, new@, tail@, 0) == layers_complaint(
                network@,
                current@,
                new@,
                tail@,
                i as nat,
            ),
        decreases current@.len() - i,
    {
        if current[i].size != new[i].size {
            let label = label_of(network, i, " size");
            return Err(count_mismatch(label.as_str(), current[i].size, new[i].size));
        }
        if current[i].activation != new[i].activation {
            let label = label_of(network, i, " activation");
            return Err(
                mismatch(
                    label.as_str(),
                    activation_name(current[i].activation),
                    activation_name(new[i].activation),
                    tail,
                ),
            );
        }
        i = i + 1;
    }
    Ok(())
}

/// Two lists of hidden layers without a difference are the same list.
pub proof fn layers_alike(
    network: Seq<char>,
    current: Seq<LayerDef>,
    new: Seq<LayerDef>,
    tail: Seq<char>,
    from: nat,
)
    requires
        current.len() == new.len(),
        from <= current.len(),
    ensures
        layers_complaint(network, current, new, tail, from) is None <==> (forall|i: int|
            from <= i < current.len() ==> current[i] == new[i]),
    decreases current.len() - from,
{
    if from < current.len() {
        layers_alike(network, current, new, tail, from + 1);
        assert(current[from as int] == new[from as int] <==> (current[from as int].size
            == new[from as int].size && current[from as int].activation
            == new[from as int].activation));
    }
}

/// The first setting that keeps a new configuration from fitting the current networks.
pub open spec fn topology_complaint<L: LinAlg>(
    current: PcActorCriticConfig,
    new: PcActorCriticConfig,
) -> Option<Seq<char>> {
    if current.actor.input_size != new.actor.input_size {
        Some(
            mismatch_text(
                "actor input_size"@,
                decimal_digits(current.actor.input_size as nat),
                decimal_digits(new.actor.input_size as nat),
                Seq::empty(),
            ),
        )
    } else if current.actor.hidden_layers@.len() != new.actor.hidden_layers@.len() {
        Some(
            mismatch_text(
                "actor hidden layer count"@,
                decimal_digits(current.actor.hidden_layers@.len()),
                decimal_digits(new.actor.hidden_layers@.len()),
                Seq::empty(),
            ),
        )
    } else if layers_complaint(
        "actor"@,
        current.actor.hidden_layers@,
        new.actor.hidden_layers@,
        " — empirically, changing activation mid-training can collapse learned behavior; reconstruct agent instead"@,
        0,
    ) is Some {
        layers_complaint(
            "actor"@,
            current.actor.hidden_layers@,
            new.actor.hidden_layers@,
            " — empirically, changing activation mid-training can collapse learned behavior; reconstruct agent instead"@,
            0,
        )
    } else if current.actor.output_size != new.actor.output_size {
        Some(
            mismatch_text(
                "actor output_size"@,
                decimal_digits(current.actor.output_size as nat),
                decimal_digits(new.actor.output_size as nat),
                Seq::empty(),
            ),
        )
    } else if current.critic.input_size != new.critic.input_size {
        Some(
            mismatch_text(
                "critic input_size"@,
                decimal_digits(current.critic.input_size as nat),
                decimal_digits(new.critic.input_size as nat),
                Seq::empty(),
            ),
        )
    } else if current.critic.hidden_layers@.len() != new.critic.hidden_layers@.len() {
        Some(
            mismatch_text(
                "critic hidden layer count"@,
                decimal_digits(current.critic.hidden_layers@.len()),
                decimal_digits(new.critic.hidden_layers@.len()),
                Seq::empty(),
            ),
        )
    } else if layers_complaint(
        "critic"@,
        current.critic.hidden_layers@,
        new.critic.hidden_layers@,
        " — reconstruct agent instead"@,
        0,
    ) is Some {
        layers_complaint(
            "critic"@,
            current.critic.hidden_layers@,
            new.critic.hidden_layers@,
            " — reconstruct agent instead"@,
            0,
        )
    } else if current.actor.output_activation != new.actor.output_activation {
        Some(
            mismatch_text(
                "actor output_activation"@,
                activation_text(current.actor.output_activation),
                activation_text(new.actor.output_activation),
                ""@,
            ),
        )
    } else if current.actor.residual != new.actor.residual {
        Some(
            mismatch_text(
                "actor residual"@,
                flag_text(current.actor.residual),
                flag_text(new.actor.residual),
                ""@,
            ),
        )
    } else if !nearly_equal::<L>(current.actor.rezero_init, new.actor.rezero_init) {
        Some(
            mismatch_text(
                "actor rezero_init"@,
                L::text(current.actor.rezero_init),
                L::text(new.actor.rezero_init),
                ""@,
            ),
        )
    } else if !nearly_equal::<L>(current.actor.lr_weights, new.actor.lr_weights) {
        Some(
            mismatch_text(
                "actor lr_weights"@,
                L::text(current.actor.lr_weights),
                L::text(new.actor.lr_weights),
                " — per-network params are immutable across apply_config(); reconstruct agent instead"@,
            ),
        )
    } else if !nearly_equal::<L>(current.actor.alpha, new.actor.alpha) {
        Some(
            mismatch_text(
                "actor alpha"@,
                L::text(current.actor.alpha),
                L::text(new.actor.alpha),
                " — per-network params are immutable across apply_config()"@,
            ),
        )
    } else if !nearly_equal::<L>(current.actor.tol, new.actor.tol) {
        Some(mismatch_text("actor tol"@, L::text(current.actor.tol), L::text(new.actor.tol), ""@))
    } else if current.actor.min_steps != new.actor.min_steps {
        Some(
            mismatch_text(
                "actor min_steps"@,
                decimal_digits(current.actor.min_steps as nat),
                decimal_digits(new.actor.min_steps as nat),
                Seq::empty(),
            ),
        )
    } else if current.actor.max_steps != new.actor.max_steps {
        Some(
            mismatch_text(
                "actor max_steps"@,
                decimal_digits(current.actor.max_steps as nat),
                decimal_digits(new.actor.max_steps as nat),
                Seq::empty(),
            ),
        )
    } else if !nearly_equal::<L>(current.actor.temperature, new.actor.temperature) {
        Some(
            mismatch_text(
                "actor temperature"@,
                L::text(current.actor.temperature),
                L::text(new.actor.temperature),
                " — per-network params are immutable across apply_config()"@,
            ),
        )
    } else if !nearly_equal::<L>(current.actor.local_lambda, new.actor.local_lambda) {
        Some(
            mismatch_text(
                "actor local_lambda"@,
                L::text(current.actor.local_lambda),
                L::text(new.actor.local_lambda),
                ""@,
            ),
        )
    } else if current.actor.synchronous != new.actor.synchronous {
        Some(
            mismatch_text(
                "actor synchronous"@,
                flag_text(current.actor.synchronous),
                flag_text(new.actor.synchronous),
                ""@,
            ),
        )
    } else if !nearly_equal::<L>(current.critic.lr, new.critic.lr) {
        Some(
            mismatch_text(
                "critic lr"@,
                L::text(current.critic.lr),
                L::text(new.critic.lr),
                " — per-network params are immutable across apply_config(); reconstruct agent instead"@,
            ),
        )
    } else if current.critic.output_activation != new.critic.output_activation {
        Some(
            mismatch_text(
                "critic output_activation"@,
                activation_text(current.critic.output_activation),
                activation_text(new.critic.output_activation),
                ""@,
            ),
        )
    } else {
        None
    }
}

/// The new configuration describes the networks that are already there.
pub open spec fn same_networks<L: LinAlg>(
    current: PcActorCriticConfig,
    new: PcActorCriticConfig,
) -> bool {
    &&& current.actor.input_size == new.actor.input_size
    &&& current.actor.hidden_layers@ == new.actor.hidden_layers@
    &&& current.actor.output_size == new.actor.output_size
    &&& current.critic.input_size == new.critic.input_size
    &&& current.critic.hidden_layers@ == new.critic.hidden_layers@
    &&& current.actor.output_activation == new.actor.output_activation
    &&& current.actor.residual == new.actor.residual
    &&& current.actor.min_steps == new.actor.min_steps
    &&& current.actor.max_steps == new.actor.max_steps
    &&& current.actor.synchronous == new.actor.synchronous
    &&& current.critic.output_activation == new.critic.output_activation
    &&& nearly_equal::<L>(current.actor.rezero_init, new.actor.rezero_init)
    &&& nearly_equal::<L>(current.actor.lr_weights, new.actor.lr_weights)
    &&& nearly_equal::<L>(current.actor.alpha, new.actor.alpha)
    &&& nearly_equal::<L>(current.actor.tol, new.actor.tol)
    &&& nearly_equal::<L>(current.actor.temperature, new.actor.temperature)
    &&& nearly_equal::<L>(current.actor.local_lambda, new.actor.local_lambda)
    &&& nearly_equal::<L>(current.critic.lr, new.critic.lr)
}

/// A reconfiguration is complained of exactly when it would change a network.
pub proof fn topology_complaint_iff<L: LinAlg>(
    current: PcActorCriticConfig,
    new: PcActorCriticConfig,
)
    ensures
        topology_complaint::<L>(current, new) is None <==> same_networks::<L>(current, new),
{
    let a = current.actor.hidden_layers@;
    let b = new.actor.hidden_layers@;
    let c = current.critic.hidden_layers@;
    let d = new.critic.hidden_layers@;
    if a.len() == b.len() {
        layers_alike(
            "actor"@,
            a,
            b,
            " — empirically, changing activation mid-training can collapse learned behavior; reconstruct agent instead"@,
            0,
        );
        assert((forall|i: int| 0 <= i < a.len() ==> a[i] == b[i]) ==> a =~= b);
    }
    if c.len() == d.len() {
        layers_alike("critic"@, c, d, " — reconstruct agent instead"@, 0);
        assert((forall|i: int| 0 <= i < c.len() ==> c[i] == d[i]) ==> c =~= d);
    }
}

/// Checks that a new configuration describes the networks that are already there; the
/// first setting that differs is reported.
pub fn compare_topology<L: LinAlg>(
    current: &PcActorCriticConfig,
    new: &PcActorCriticConfig,
) -> (r: Result<(), PcError>)
    ensures
        r is Ok <==> topology_complaint::<L>(*current, *new) is None,
        r matches Err(e) ==> e.says(topology_complaint::<L>(*current, *new)->0),
{
    if current.actor.input_size != new.actor.input_size {
        return Err(
            count_mismatch("actor input_size", current.actor.input_size, new.actor.input_size),
        );
    }
    if current.actor.hidden_layers.len() != new.actor.hidden_layers.len() {
        return Err(
            count_mismatch(
                "actor hidden layer count",
                current.actor.hidden_layers.len(),
                new.actor.hidden_layers.len(),
            ),
        );
    }
    match compare_layers(
        "actor",
        &current.actor.hidden_layers,
        &new.actor.hidden_layers,
        " — empirically, changing activation mid-training can collapse learned behavior; reconstruct agent instead",
    ) {
        Ok(()) => {},
        Err(e) => {
            return Err(e);
        },
    }
    if current.actor.output_size != new.actor.output_size {
        return Err(
            count_mismatch("actor output_size", current.actor.output_size, new.actor.output_size),
        );
    }
    if current.critic.input_size != new.critic.input_size {
        return Err(
            count_mismatch("critic input_size", current.critic.input_size, new.critic.input_size),
        );
    }
    if current.critic.hidden_layers.len() != new.critic.hidden_layers.len() {
        return Err(
            count_mismatch(
                "critic hidden layer count",
                current.critic.hidden_layers.len(),
                new.critic.hidden_layers.len(),
            ),
        );
    }
    match compare_layers(
        "critic",
        &current.critic.hidden_layers,
        &new.critic.hidden_layers,
        " — reconstruct agent instead",
    ) {
        Ok(()) => {},
        Err(e) => {
            return Err(e);
        },
    }
    if current.actor.output_activation != new.actor.output_activation {
        return Err(
            mismatch(
                "actor output_activation",
                activation_name(current.actor.output_activation),
                activation_name(new.actor.output_activation),
                "",
            ),
        );
    }
    if current.actor.residual != new.actor.residual {
        return Err(
            mismatch("actor residual", flag(current.actor.residual), flag(new.actor.residual), ""),
        );
    }
    if !f64_approx_eq::<L>(current.actor.rezero_init, new.actor.rezero_init) {
        return Err(
            scalar_mismatch::<L>(
                "actor rezero_init",
                current.actor.rezero_init,
                new.actor.rezero_init,
                "",
            ),
        );
    }
    if !f64_approx_eq::<L>(current.actor.lr_weights, new.actor.lr_weights) {
        return Err(
            scalar_mismatch::<L>(
                "actor lr_weights",
                current.actor.lr_weights,
                new.actor.lr_weights,
                " — per-network params are immutable across apply_config(); reconstruct agent instead",
            ),
        );
    }
    if !f64_approx_eq::<L>(current.actor.alpha, new.actor.alpha) {
        return Err(
            scalar_mismatch::<L>(
                "actor alpha",
                current.actor.alpha,
                new.actor.alpha,
                " — per-network params are immutable across apply_config()",
            ),
        );
    }
    if !f64_approx_eq::<L>(current.actor.tol, new.actor.tol) {
        return Err(scalar_mismatch::<L>("actor tol", current.actor.tol, new.actor.tol, ""));
    }
    if current.actor.min_steps != new.actor.min_steps {
        return Err(count_mismatch("actor min_steps", current.actor.min_steps, new.actor.min_steps));
    }
    if current.actor.max_steps != new.actor.max_steps {
        return Err(count_mismatch("actor max_steps", current.actor.max_steps, new.actor.max_steps));
    }
    if !f64_approx_eq::<L>(current.actor.temperature, new.actor.temperature) {
        return Err(
            scalar_mismatch::<L>(
                "actor temperature",
                current.actor.temperature,
                new.actor.temperature,
                " — per-network params are immutable across apply_config()",
            ),
        );
    }
    if !f64_approx_eq::<L>(current.actor.local_lambda, new.actor.local_lambda) {
        return Err(
            scalar_mismatch::<L>(
                "actor local_lambda",
                current.actor.local_lambda,
                new.actor.local_lambda,
                "",
            ),
        );
    }
    if current.actor.synchronous != new.actor.synchronous {
        return Err(
            mismatch(
                "actor synchronous",
                flag(current.actor.synchronous),
                flag(new.actor.synchronous),
                "",
            ),
        );
    }
    if !f64_approx_eq::<L>(current.critic.lr, new.critic.lr) {
        return Err(
            scalar_mismatch::<L>(
                "critic lr",
                current.critic.lr,
                new.critic.lr,
                " — per-network params are immutable across apply_config(); reconstruct agent instead",
            ),
        );
    }
    if current.critic.output_activation != new.critic.output_activation {
        return Err(
            mismatch(
                "critic output_activation",
                activation_name(current.critic.output_activation),
                activation_name(new.critic.output_activation),
                "",
            ),
        );
    }
    Ok(())
}

/// An acceptable configuration describes the networks that it built.
pub proof fn own_settings_match<L: LinAlg>(c: PcActorCriticConfig)
    requires
        config_acceptable::<L>(c),
    ensures
        topology_complaint::<L>(c, c) is None,
{
    topology_complaint_iff::<L>(c, c);
}

} // verus!
