//! The replay memory: two bounded compartments of past transitions.

use std::collections::VecDeque;

use rand::rngs::StdRng;
use vstd::prelude::*;

use crate::error::PcError;
use crate::pc_actor_critic::config::{action_space_name, action_space_text, ActionSpace};
use crate::random::{natural_order, ordering, random_order};
use crate::scalar::Scalar;

verus! {

/// An action taken.
#[derive(Clone, Debug, PartialEq)]
pub enum Action {
    /// The index of a discrete action.
    Discrete(usize),
    /// A continuous action.
    Continuous(Vec<Scalar>),
}

/// What an action holds.
#[verifier::ext_equal]
pub enum ActionView {
    /// The index of a discrete action.
    Discrete(usize),
    /// A continuous action.
    Continuous(Seq<Scalar>),
}

impl ActionView {
    /// The action is one that the action space has.
    pub open spec fn belongs_to(self, space: ActionSpace) -> bool {
        match self {
            ActionView::Discrete(_) => space == ActionSpace::Discrete,
            ActionView::Continuous(_) => space == ActionSpace::Continuous,
        }
    }
}

impl Action {
    /// What the action holds.
    pub open spec fn view(&self) -> ActionView {
        match *self {
            Action::Discrete(i) => ActionView::Discrete(i),
            Action::Continuous(v) => ActionView::Continuous(v@),
        }
    }

    /// Whether the action is one that the action space has.
    pub fn matches_space(&self, space: ActionSpace) -> (r: bool)
        ensures
            r == self@.belongs_to(space),
    {
        match self {
            Action::Discrete(_) => match space {
                ActionSpace::Discrete => true,
                ActionSpace::Continuous => false,
            },
            Action::Continuous(_) => match space {
                ActionSpace::Discrete => false,
                ActionSpace::Continuous => true,
            },
        }
    }
}

/// One remembered transition.
#[derive(Clone, Debug, PartialEq)]
pub struct ReplayTransition {
    /// State in which the action was taken.
    pub state: Vec<Scalar>,
    /// Action taken.
    pub action: Action,
    /// Reward received.
    pub reward: Scalar,
    /// State that followed.
    pub next_state: Vec<Scalar>,
    /// Whether the episode ended.
    pub done: bool,
    /// Actions that were open; discrete actions only.
    pub valid_actions: Option<Vec<usize>>,
}

/// What a transition holds.
#[verifier::ext_equal]
pub struct TransitionView {
    /// State in which the action was taken.
    pub state: Seq<Scalar>,
    /// Action taken.
    pub action: ActionView,
    /// Reward received.
    pub reward: Scalar,
    /// State that followed.
    pub next_state: Seq<Scalar>,
    /// Whether the episode ended.
    pub done: bool,
    /// Actions that were open.
    pub valid_actions: Option<Seq<usize>>,
}

impl TransitionView {
    /// A mask is there exactly for discrete actions.
    pub open spec fn mask_consistent(self) -> bool {
        match self.action {
            ActionView::Discrete(_) => self.valid_actions is Some,
            ActionView::Continuous(_) => self.valid_actions is None,
        }
    }
}

/// A copy of a list of numbers.
pub fn copy_scalars(v: &Vec<Scalar>) -> (r: Vec<Scalar>)
    ensures
        r@ == v@,
{
    let r = v.clone();
    assert(r@ =~= v@);
    r
}

/// A copy of a list of positions.
pub fn copy_indices(v: &Vec<usize>) -> (r: Vec<usize>)
    ensures
        r@ == v@,
{
    let r = v.clone();
    assert(r@ =~= v@);
    r
}

impl ReplayTransition {
    /// What the transition holds.
    pub open spec fn view(&self) -> TransitionView {
        TransitionView {
            state: self.state@,
            action: self.action@,
            reward: self.reward,
            next_state: self.next_state@,
            done: self.done,
            valid_actions: match self.valid_actions {
                Some(m) => Some(m@),
                None => None,
            },
        }
    }

    /// A copy.
    pub fn copy(&self) -> (r: ReplayTransition)
        ensures
            r@ == self@,
    {
        ReplayTransition {
            state: copy_scalars(&self.state),
            action: match &self.action {
                Action::Discrete(i) => Action::Discrete(*i),
                Action::Continuous(v) => Action::Continuous(copy_scalars(v)),
            },
            reward: self.reward,
            next_state: copy_scalars(&self.next_state),
            done: self.done,
            valid_actions: match &self.valid_actions {
                Some(m) => Some(copy_indices(m)),
                None => None,
            },
        }
    }
}

/// What each transition holds.
pub open spec fn transition_views(s: Seq<ReplayTransition>) -> Seq<TransitionView> {
    s.map_values(|t: ReplayTransition| t.view())
}

/// A queue with one more entry at the back; the oldest leaves where it is full.
pub open spec fn queued<T>(s: Seq<T>, capacity: nat, x: T) -> Seq<T> {
    if capacity == 0 {
        s
    } else if s.len() >= capacity {
        s.drop_first().push(x)
    } else {
        s.push(x)
    }
}

/// Replay memory with a training compartment, filled until it is sealed, and a recent
/// compartment, filled from there on. The oldest transition of a full compartment leaves.
#[derive(Clone, Debug)]
pub struct ReplayBuffer {
    /// Action space of every transition.
    pub action_space: ActionSpace,
    /// Transitions of the training phase.
    pub training_memories: VecDeque<ReplayTransition>,
    /// Most transitions kept from the training phase.
    pub training_capacity: usize,
    /// Transitions since the training phase.
    pub recent_memories: VecDeque<ReplayTransition>,
    /// Most transitions kept since the training phase.
    pub recent_capacity: usize,
    /// Whether the training compartment is still being filled.
    pub training_phase: bool,
    /// Whether transitions without a positive reward are dropped.
    pub positive_only: bool,
}

/// What a memory holds.
#[verifier::ext_equal]
pub struct ReplayView {
    /// Action space of every transition.
    pub action_space: ActionSpace,
    /// Transitions of the training phase, oldest first.
    pub training: Seq<TransitionView>,
    /// Most transitions kept from the training phase.
    pub training_capacity: nat,
    /// Transitions since the training phase, oldest first.
    pub recent: Seq<TransitionView>,
    /// Most transitions kept since the training phase.
    pub recent_capacity: nat,
    /// Whether the training compartment is still being filled.
    pub training_phase: bool,
    /// Whether transitions without a positive reward are dropped.
    pub positive_only: bool,
}

impl ReplayView {
    /// A memory with nothing in it.
    pub open spec fn blank(
        training_capacity: nat,
        recent_capacity: nat,
        positive_only: bool,
        action_space: ActionSpace,
    ) -> ReplayView {
        ReplayView {
            action_space,
            training: Seq::empty(),
            training_capacity,
            recent: Seq::empty(),
            recent_capacity,
            training_phase: true,
            positive_only,
        }
    }

    /// Neither compartment is over its capacity, and every transition is of the action space.
    pub open spec fn valid(self) -> bool {
        &&& self.training.len() <= self.training_capacity
        &&& self.recent.len() <= self.recent_capacity
        &&& forall|i: int|
            0 <= i < self.training.len() ==> self.admits(#[trigger] self.training[i])
        &&& forall|i: int| 0 <= i < self.recent.len() ==> self.admits(#[trigger] self.recent[i])
    }

    /// A transition of the memory's action space, with a mask exactly where it takes one.
    pub open spec fn admits(self, t: TransitionView) -> bool {
        t.action.belongs_to(self.action_space) && t.mask_consistent()
    }

    /// A transition that the reward filter lets through.
    pub open spec fn keeps(self, t: TransitionView) -> bool {
        !(self.positive_only && t.reward.at_most(Scalar::zero()))
    }

    /// The memory after an admitted transition was offered to it.
    pub open spec fn offered(self, t: TransitionView) -> ReplayView {
        if !self.keeps(t) {
            self
        } else if self.training_phase {
            ReplayView { training: queued(self.training, self.training_capacity, t), ..self }
        } else {
            ReplayView { recent: queued(self.recent, self.recent_capacity, t), ..self }
        }
    }

    /// The memory with its training compartment sealed.
    pub open spec fn sealed(self) -> ReplayView {
        ReplayView { training_phase: false, ..self }
    }

    /// The memory with its recent compartment emptied.
    pub open spec fn recent_cleared(self) -> ReplayView {
        ReplayView { recent: Seq::empty(), ..self }
    }

    /// What is said of a transition that is not admitted.
    pub open spec fn push_complaint(self, t: TransitionView) -> Option<Seq<char>> {
        if !t.action.belongs_to(self.action_space) {
            Some(
                "transition action variant does not match buffer's action_space "@
                    + action_space_text(self.action_space)
                    + ". Cross-mode buffer contamination is rejected."@,
            )
        } else if !t.mask_consistent() {
            Some(
                "valid_actions must be Some(_) for Action::Discrete and None for Action::Continuous"@,
            )
        } else {
            None
        }
    }

    /// How many transitions a draw of `batch` takes from the training compartment.
    pub open spec fn draw_training(self, batch: nat) -> nat {
        let wanted_recent = batch - batch / 2;
        let recent = if wanted_recent <= self.recent.len() {
            wanted_recent
        } else {
            self.recent.len() as int
        };
        if batch - recent <= self.training.len() {
            (batch - recent) as nat
        } else {
            self.training.len()
        }
    }

    /// How many transitions a draw of `batch` takes from the recent compartment.
    pub open spec fn draw_recent(self, batch: nat) -> nat {
        let rest = batch - self.draw_training(batch);
        if rest <= self.recent.len() {
            rest as nat
        } else {
            self.recent.len()
        }
    }

    /// A draw of `batch` transitions, the compartments gone through in the given orders.
    pub open spec fn drawn(
        self,
        batch: nat,
        training_order: Seq<usize>,
        recent_order: Seq<usize>,
    ) -> Seq<TransitionView> {
        Seq::new(self.draw_training(batch), |i: int| self.training[training_order[i] as int])
            + Seq::new(self.draw_recent(batch), |i: int| self.recent[recent_order[i] as int])
    }
}

impl ReplayBuffer {
    /// What the memory holds.
    pub open spec fn view(&self) -> ReplayView {
        ReplayView {
            action_space: self.action_space,
            training: transition_views(self.training_memories@),
            training_capacity: self.training_capacity as nat,
            recent: transition_views(self.recent_memories@),
            recent_capacity: self.recent_capacity as nat,
            training_phase: self.training_phase,
            positive_only: self.positive_only,
        }
    }

    /// A memory with nothing in it.
    pub fn new(
        training_capacity: usize,
        recent_capacity: usize,
        positive_only: bool,
        action_space: ActionSpace,
    ) -> (r: Self)
        ensures
            r@ == ReplayView::blank(
                training_capacity as nat,
                recent_capacity as nat,
                positive_only,
                action_space,
            ),
    {
        let r = ReplayBuffer {
            action_space,
            training_memories: VecDeque::new(),
            training_capacity,
            recent_memories: VecDeque::new(),
            recent_capacity,
            training_phase: true,
            positive_only,
        };
        assert(r@.training =~= Seq::empty());
        assert(r@.recent =~= Seq::empty());
        r
    }

    /// Offers a transition to the compartment that is being filled. A transition of the
    /// wrong action space, or with a mask where none belongs, is refused and nothing changes.
    pub fn push(&mut self, transition: ReplayTransition) -> (r: Result<(), PcError>)
        ensures
            r is Ok <==> old(self)@.push_complaint(transition@) is None,
            r is Ok <==> old(self)@.admits(transition@),
            r is Ok ==> final(self)@ == old(self)@.offered(transition@),
            r matches Err(e) ==> e.says(old(self)@.push_complaint(transition@)->0) && final(self)@
                == old(self)@,
    {
        if !transition.action.matches_space(self.action_space) {
            let mut s = String::from_str(
                "transition action variant does not match buffer's action_space ",
            );
            s.append(action_space_name(self.action_space));
            s.append(". Cross-mode buffer contamination is rejected.");
            return Err(PcError::ConfigValidation(s));
        }
        let consistent = match &transition.action {
            Action::Discrete(_) => transition.valid_actions.is_some(),
            Action::Continuous(_) => transition.valid_actions.is_none(),
        };
        if !consistent {
            return Err(
                PcError::ConfigValidation(
                    String::from_str(
                        "valid_actions must be Some(_) for Action::Discrete and None for Action::Continuous",
                    ),
                ),
            );
        }
        if self.positive_only && transition.reward.le(Scalar::zero()) {
            return Ok(());
        }
        if self.training_phase {
            if self.training_capacity == 0 {
                return Ok(());
            }
            if self.training_memories.len() >= self.training_capacity {
                let _ = self.training_memories.pop_front();
            }
            self.training_memories.push_back(transition);
            assert(self@.training =~= queued(
                old(self)@.training,
                old(self)@.training_capacity,
                transition@,
            ));
        } else {
            if self.recent_capacity == 0 {
                return Ok(());
            }
            if self.recent_memories.len() >= self.recent_capacity {
                let _ = self.recent_memories.pop_front();
            }
            self.recent_memories.push_back(transition);
            assert(self@.recent =~= queued(
                old(self)@.recent,
                old(self)@.recent_capacity,
                transition@,
            ));
        }
        Ok(())
    }

    /// Ends the training phase: what comes in from here on is recent.
    pub fn seal_training_memories(&mut self)
        ensures
            final(self)@ == old(self)@.sealed(),
    {
        self.training_phase = false;
    }

    /// Empties the recent compartment.
    pub fn clear_recent(&mut self)
        ensures
            final(self)@ == old(self)@.recent_cleared(),
    {
        self.recent_memories.clear();
        assert(self@.recent =~= Seq::empty());
    }

    /// A copy.
    pub fn copy(&self) -> (r: ReplayBuffer)
        ensures
            r@ == self@,
    {
        ReplayBuffer {
            action_space: self.action_space,
            training_memories: copy_queue(&self.training_memories),
            training_capacity: self.training_capacity,
            recent_memories: copy_queue(&self.recent_memories),
            recent_capacity: self.recent_capacity,
            training_phase: self.training_phase,
            positive_only: self.positive_only,
        }
    }

    /// How many transitions a draw takes from the training and the recent compartment.
    pub fn draw_counts(&self, batch_size: usize) -> (r: (usize, usize))
        ensures
            r.0 == self@.draw_training(batch_size as nat),
            r.1 == self@.draw_recent(batch_size as nat),
    {
        let a_len: usize = self.training_memories.len();
        let b_len: usize = self.recent_memories.len();
        let wanted_recent: usize = batch_size - batch_size / 2;
        let recent: usize = if wanted_recent <= b_len {
            wanted_recent
        } else {
            b_len
        };
        let n_a: usize = if batch_size - recent <= a_len {
            batch_size - recent
        } else {
            a_len
        };
        let n_b: usize = if batch_size - n_a <= b_len {
            batch_size - n_a
        } else {
            b_len
        };
        (n_a, n_b)
    }

    /// Draws `batch_size` transitions, or all there are, going through each compartment in
    /// the given order.
    pub fn sample_in_order(
        &self,
        batch_size: usize,
        training_order: &Vec<usize>,
        recent_order: &Vec<usize>,
    ) -> (r: Vec<ReplayTransition>)
        requires
            ordering(training_order@, self@.training.len()),
            ordering(recent_order@, self@.recent.len()),
        ensures
            transition_views(r@) == self@.drawn(
                batch_size as nat,
                training_order@,
                recent_order@,
            ),
    {
        let a_len: usize = self.training_memories.len();
        let b_len: usize = self.recent_memories.len();
        let (n_a, n_b) = self.draw_counts(batch_size);
        let mut out: Vec<ReplayTransition> = Vec::new();
        let mut i: usize = 0;
        while i < n_a
            invariant
                i <= n_a <= a_len == training_order@.len(),
                a_len == self@.training.len(),
                ordering(training_order@, self@.training.len()),
                out@.len() == i,
                forall|j: int|
                    0 <= j < i ==> (#[trigger] out@[j])@
                        == self@.training[training_order@[j] as int],
            decreases n_a - i,
        {
            let k: usize = training_order[i];
            out.push(self.training_memories[k].copy());
            i = i + 1;
        }
        i = 0;
        while i < n_b
            invariant
                i <= n_b <= b_len == recent_order@.len(),
                b_len == self@.recent.len(),
                ordering(recent_order@, self@.recent.len()),
                out@.len() == n_a + i,
                forall|j: int|
                    0 <= j < n_a ==> (#[trigger] out@[j])@
                        == self@.training[training_order@[j] as int],
                forall|j: int|
                    n_a <= j < n_a + i ==> (#[trigger] out@[j])@
                        == self@.recent[recent_order@[j - n_a] as int],
            decreases n_b - i,
        {
            let k: usize = recent_order[i];
            out.push(self.recent_memories[k].copy());
            i = i + 1;
        }
        assert(transition_views(out@) =~= self@.drawn(
            batch_size as nat,
            training_order@,
            recent_order@,
        ));
        out
    }

    /// Draws `batch_size` transitions at random, or all there are: half from each
    /// compartment where both have enough, none of them twice. Where nothing is drawn, no
    /// random number is used up.
    pub fn sample(&self, batch_size: usize, rng: &mut StdRng) -> (r: Vec<ReplayTransition>)
        ensures
            exists|a: Seq<usize>, b: Seq<usize>|
                ordering(a, self@.training.len()) && ordering(b, self@.recent.len())
                    && transition_views(r@) == #[trigger] self@.drawn(batch_size as nat, a, b),
            r@.len() == (if batch_size <= self@.training.len() + self@.recent.len() {
                batch_size as nat
            } else {
                self@.training.len() + self@.recent.len()
            }),
            self@.draw_training(batch_size as nat) == 0 && self@.draw_recent(batch_size as nat) == 0
                ==> *final(rng) == *old(rng),
    {
        let (n_a, n_b) = self.draw_counts(batch_size);
        let training_order = if n_a > 0 {
            random_order(self.training_memories.len(), rng)
        } else {
            natural_order(self.training_memories.len())
        };
        let recent_order = if n_b > 0 {
            random_order(self.recent_memories.len(), rng)
        } else {
            natural_order(self.recent_memories.len())
        };
        let out = self.sample_in_order(batch_size, &training_order, &recent_order);
        assert(transition_views(out@).len() == out@.len());
        out
    }

    /// How many transitions there are.
    pub fn total_len(&self) -> (r: usize)
        requires
            self@.training.len() + self@.recent.len() <= usize::MAX,
        ensures
            r == self@.training.len() + self@.recent.len(),
    {
        self.training_memories.len() + self.recent_memories.len()
    }

    /// Whether there are no transitions.
    pub fn is_empty(&self) -> (r: bool)
        ensures
            r == (self@.training.len() + self@.recent.len() == 0),
    {
        self.training_memories.len() == 0 && self.recent_memories.len() == 0
    }
}

fn copy_queue(queue: &VecDeque<ReplayTransition>) -> (r: VecDeque<ReplayTransition>)
    ensures
        transition_views(r@) == transition_views(queue@),
{
    let mut out: VecDeque<ReplayTransition> = VecDeque::new();
    let mut i: usize = 0;
    while i < queue.len()
        invariant
            i <= queue@.len(),
            out@.len() == i,
            forall|j: int| 0 <= j < i ==> (#[trigger] out@[j])@ == queue@[j]@,
        decreases queue@.len() - i,
    {
        out.push_back(queue[i].copy());
        i = i + 1;
    }
    assert(transition_views(out@) =~= transition_views(queue@));
    out
}

/// Whatever is offered to a valid memory, it stays valid: neither compartment outgrows its
/// capacity and no transition of another action space gets in.
pub proof fn offering_keeps_valid(m: ReplayView, t: TransitionView)
    requires
        m.valid(),
        m.admits(t),
    ensures
        m.offered(t).valid(),
        m.sealed().valid(),
        m.recent_cleared().valid(),
{
    let n = m.offered(t);
    assert forall|i: int| 0 <= i < n.training.len() implies n.admits(#[trigger] n.training[i]) by {
        if n.training != m.training {
            if m.training.len() >= m.training_capacity && i < n.training.len() - 1 {
                assert(n.training[i] == m.training[i + 1]);
            }
        }
    }
    assert forall|i: int| 0 <= i < n.recent.len() implies n.admits(#[trigger] n.recent[i]) by {
        if n.recent != m.recent {
            if m.recent.len() >= m.recent_capacity && i < n.recent.len() - 1 {
                assert(n.recent[i] == m.recent[i + 1]);
            }
        }
    }
}

/// Once sealed, the training compartment never changes, whatever is offered or cleared.
pub proof fn sealed_training_is_kept(m: ReplayView, t: TransitionView)
    requires
        !m.training_phase,
    ensures
        m.offered(t).training == m.training,
        !m.offered(t).training_phase,
        m.recent_cleared().training == m.training,
        !m.recent_cleared().training_phase,
{
}

/// While the training phase lasts, the recent compartment is left alone.
pub proof fn training_phase_spares_recent(m: ReplayView, t: TransitionView)
    requires
        m.training_phase,
    ensures
        m.offered(t).recent == m.recent,
{
}

/// With the reward filter on, a transition whose reward is zero or less leaves no trace.
pub proof fn filter_drops_unrewarded(m: ReplayView, t: TransitionView)
    requires
        m.positive_only,
        t.reward.at_most(Scalar::zero()),
    ensures
        m.offered(t) == m,
{
}

/// No transition is there that the reward filter would not let through.
pub open spec fn all_kept(m: ReplayView) -> bool {
    &&& forall|i: int| 0 <= i < m.training.len() ==> m.keeps(#[trigger] m.training[i])
    &&& forall|i: int| 0 <= i < m.recent.len() ==> m.keeps(#[trigger] m.recent[i])
}

/// With the reward filter on, no reward of zero or less ever gets into the memory.
pub proof fn filter_keeps_the_memory_clean(m: ReplayView, t: TransitionView)
    requires
        all_kept(m),
    ensures
        all_kept(m.offered(t)),
        all_kept(m.sealed()),
        all_kept(m.recent_cleared()),
{
    let n = m.offered(t);
    assert forall|i: int| 0 <= i < n.training.len() implies n.keeps(#[trigger] n.training[i]) by {
        if n.training != m.training && m.training.len() >= m.training_capacity && i
            < n.training.len() - 1 {
            assert(n.training[i] == m.training[i + 1]);
        }
    }
    assert forall|i: int| 0 <= i < n.recent.len() implies n.keeps(#[trigger] n.recent[i]) by {
        if n.recent != m.recent && m.recent.len() >= m.recent_capacity && i < n.recent.len() - 1 {
            assert(n.recent[i] == m.recent[i + 1]);
        }
    }
    assert forall|i: int| 0 <= i < m.sealed().training.len() implies m.sealed().keeps(
        #[trigger] m.sealed().training[i],
    ) by {
        assert(m.keeps(m.training[i]));
    }
    assert forall|i: int| 0 <= i < m.sealed().recent.len() implies m.sealed().keeps(
        #[trigger] m.sealed().recent[i],
    ) by {
        assert(m.keeps(m.recent[i]));
    }
    assert forall|i: int|
        0 <= i < m.recent_cleared().training.len() implies m.recent_cleared().keeps(
        #[trigger] m.recent_cleared().training[i],
    ) by {
        assert(m.keeps(m.training[i]));
    }
}

/// A full compartment drops its oldest transition and keeps the rest in order.
pub proof fn full_compartment_drops_oldest(m: ReplayView, t: TransitionView)
    requires
        m.keeps(t),
    ensures
        m.training_phase && m.training.len() == m.training_capacity && m.training_capacity > 0 ==> {
            &&& m.offered(t).training == m.training.drop_first().push(t)
            &&& m.offered(t).training.len() == m.training_capacity
        },
        !m.training_phase && m.recent.len() == m.recent_capacity && m.recent_capacity > 0 ==> {
            &&& m.offered(t).recent == m.recent.drop_first().push(t)
            &&& m.offered(t).recent.len() == m.recent_capacity
        },
{
}

/// A draw is as large as asked for, or as large as the memory.
pub proof fn draw_is_full(m: ReplayView, batch: nat, a: Seq<usize>, b: Seq<usize>)
    ensures
        m.drawn(batch, a, b).len() == (if batch <= m.training.len() + m.recent.len() {
            batch
        } else {
            m.training.len() + m.recent.len()
        }),
{
}

/// Where both compartments have enough, a draw is split evenly, the odd one being recent.
pub proof fn draw_is_even(m: ReplayView, batch: nat)
    requires
        batch <= m.training.len(),
        batch <= m.recent.len(),
    ensures
        m.draw_training(batch) == batch / 2,
        m.draw_recent(batch) == batch - batch / 2,
{
}

/// Where one compartment is empty, a draw comes from the other alone.
pub proof fn draw_falls_back(m: ReplayView, batch: nat)
    ensures
        m.recent.len() == 0 ==> m.draw_recent(batch) == 0,
        m.training.len() == 0 ==> m.draw_training(batch) == 0,
{
}

/// Nothing is drawn twice: two places of a draw hold what lies at two places of the memory, each in
/// its own compartment.
pub proof fn nothing_is_drawn_twice(
    m: ReplayView,
    batch: nat,
    a: Seq<usize>,
    b: Seq<usize>,
    i: int,
    j: int,
)
    requires
        ordering(a, m.training.len()),
        ordering(b, m.recent.len()),
        0 <= i < j < m.drawn(batch, a, b).len(),
    ensures
        ({
            let d = m.drawn(batch, a, b);
            let n = m.draw_training(batch) as int;
            &&& j < n ==> exists|p: int, q: int|
                p != q && 0 <= p < m.training.len() && 0 <= q < m.training.len() && d[i]
                    == #[trigger] m.training[p] && d[j] == #[trigger] m.training[q]
            &&& n <= i ==> exists|p: int, q: int|
                p != q && 0 <= p < m.recent.len() && 0 <= q < m.recent.len() && d[i]
                    == #[trigger] m.recent[p] && d[j] == #[trigger] m.recent[q]
            &&& i < n <= j ==> m.training.contains(d[i]) && m.recent.contains(d[j])
        }),
{
    let d = m.drawn(batch, a, b);
    let n = m.draw_training(batch) as int;
    if j < n {
        let p = a[i] as int;
        let q = a[j] as int;
        assert(p != q);
        assert(d[i] == m.training[p] && d[j] == m.training[q]);
    } else if n <= i {
        let p = b[i - n] as int;
        let q = b[j - n] as int;
        assert(p != q);
        assert(d[i] == m.recent[p] && d[j] == m.recent[q]);
    } else {
        assert(d[i] == m.training[a[i] as int]);
        assert(d[j] == m.recent[b[j - n] as int]);
    }
}

} // verus!
