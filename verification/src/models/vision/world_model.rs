//! World Model (Latent Dynamics) for planning in latent space.
//!
//! Architecture: ViT visual encoder → latent state projection → dynamics
//! transformer (state + action) → predicted future states.
//! Enables multi-step rollout for model-based planning.

use vstd::prelude::*;

use crate::buffer;
use crate::buffer::{copy_slice, extend, filled, AlignedBuffer};
use crate::config::{Binary64, NormConfig, BITS_1E_6};
use crate::models::vision::jepa;
use crate::models::vision::vit;
use crate::models::vision::vit::{plain_layers, run_layers, EncoderLayer, ViTConfig, ViTModel};
use crate::norm;
use crate::norm::normalize_row;
use crate::ops;
use crate::ops::{fit, linear_vec, row_slice};
use crate::scalar;
use crate::scalar::{Math, Scalar};
use crate::weights;
use crate::weights::{KeyMapping, LoadResult, TensorMap, WeightError, WeightTarget};

verus! {

/// Configuration for a World Model.
#[derive(Debug, Clone, Copy, PartialEq, Eq, Structural)]
pub struct WorldModelConfig {
    /// Visual encoder configuration.
    pub encoder: ViTConfig,
    /// Latent state dimension.
    pub latent_dim: usize,
    /// Dynamics transformer depth.
    pub dynamics_num_layers: usize,
    /// Dynamics transformer attention heads.
    pub dynamics_num_heads: usize,
    /// Dynamics transformer hidden size.
    pub dynamics_hidden_size: usize,
    /// Action space dimension.
    pub action_dim: usize,
}

impl WorldModelConfig {
    /// Dynamics head dimension.
    pub fn dynamics_head_dim(&self) -> (r: usize)
        requires
            self.dynamics_num_heads > 0,
        ensures
            r == self.dynamics_hidden_size as int / self.dynamics_num_heads as int,
    {
        self.dynamics_hidden_size / self.dynamics_num_heads
    }

    /// Dynamics FFN intermediate size — 4x hidden by default.
    pub fn dynamics_intermediate_size(&self) -> (r: usize)
        requires
            self.dynamics_hidden_size * 4 <= usize::MAX,
        ensures
            r == self.dynamics_hidden_size * 4,
    {
        self.dynamics_hidden_size * 4
    }
}

/// A latent state vector in the world model's embedding space.
#[derive(Debug, Clone)]
pub struct LatentState<T> {
    /// Latent state embedding: `[latent_dim]`.
    pub embedding: Vec<T>,
}

/// Output from a world model rollout.
pub struct WorldModelOutput<T> {
    /// Predicted future states: `[num_steps]` latent states.
    pub states: Vec<LatentState<T>>,
}

/// World Model: encoder → dynamics predictor → planning in latent space.
pub struct WorldModel<T> {
    pub config: WorldModelConfig,
    /// ViT visual encoder.
    pub encoder: ViTModel<T>,
    /// Project encoder CLS embedding to latent dim: `[encoder_embed_dim, latent_dim]`.
    pub state_proj: AlignedBuffer<T>,
    /// Action embedding matrix: `[action_dim, dynamics_hidden]`.
    pub action_embed: AlignedBuffer<T>,
    /// Dynamics transformer layers (bidirectional over state+action tokens).
    pub dynamics_layers: Vec<EncoderLayer<T>>,
    /// Dynamics final norm.
    pub dynamics_norm: NormConfig,
    /// Dynamics final norm weight.
    pub dynamics_norm_weight: AlignedBuffer<T>,
    /// Project dynamics output to latent dim: `[dynamics_hidden, latent_dim]`.
    pub output_proj: AlignedBuffer<T>,
}

impl<T: Copy> WorldModel<T> {
    /// Build a World Model from config with zeroed weights.
    pub fn from_config(config: &WorldModelConfig) -> (r: Self)
        requires
            config.encoder.num_heads > 0,
            config.dynamics_num_heads > 0,
            config.dynamics_hidden_size * 4 <= usize::MAX,
        ensures
            r.config == *config,
            r.encoder.is_new(jepa::without_classes(config.encoder)),
            r.dynamics_layers@.len() == config.dynamics_num_layers,
            forall|i: int|
                0 <= i < r.dynamics_layers@.len() ==> (#[trigger] r.dynamics_layers@[i]).unloaded()
                    && r.dynamics_layers@[i].structure() == vit::plain_encoder(
                    config.dynamics_hidden_size,
                    config.dynamics_num_heads,
                    (config.dynamics_hidden_size as int / config.dynamics_num_heads as int) as usize,
                    (config.dynamics_hidden_size * 4) as usize,
                ),
            r.dynamics_norm == (NormConfig::LayerNorm { eps: Binary64 { bits: BITS_1E_6 } }),
            r.state_proj@ == Seq::<T>::empty(),
            r.action_embed@ == Seq::<T>::empty(),
            r.dynamics_norm_weight@ == Seq::<T>::empty(),
            r.output_proj@ == Seq::<T>::empty(),
    {
        let dynamics_layers = plain_layers(
            config.dynamics_num_layers,
            config.dynamics_hidden_size,
            config.dynamics_num_heads,
            config.dynamics_head_dim(),
            config.dynamics_intermediate_size(),
        );
        // Vision encoder with no classifier head
        let mut enc_config = config.encoder;
        enc_config.num_classes = 0;
        let encoder = ViTModel::from_config(&enc_config);
        WorldModel {
            config: *config,
            encoder,
            state_proj: AlignedBuffer::empty(),
            action_embed: AlignedBuffer::empty(),
            dynamics_layers,
            dynamics_norm: NormConfig::LayerNorm { eps: Binary64 { bits: BITS_1E_6 } },
            dynamics_norm_weight: AlignedBuffer::empty(),
            output_proj: AlignedBuffer::empty(),
        }
    }

    /// Load weights into the ViT encoder from source tensors whose keys are
    /// renamed by `mapping`. The dynamics part stays as it is.
    pub fn load_encoder_weights(&mut self, weights: &TensorMap<T>, mapping: KeyMapping) -> (r: Result<
        LoadResult,
        WeightError,
    >)
        requires
            weights.wf(),
        ensures
            r is Ok,
            final(self).encoder.structure() == old(self).encoder.structure(),
            weights::loaded_as(old(self).encoder, final(self).encoder, *weights, mapping, r),
            final(self).config == old(self).config,
            final(self).state_proj == old(self).state_proj,
            final(self).action_embed == old(self).action_embed,
            final(self).dynamics_layers == old(self).dynamics_layers,
            final(self).dynamics_norm == old(self).dynamics_norm,
            final(self).dynamics_norm_weight == old(self).dynamics_norm_weight,
            final(self).output_proj == old(self).output_proj,
    {
        self.encoder.load_weights(weights, mapping)
    }
}

/// A row through a projection, or fitted to its width where none is loaded.
pub open spec fn projected_row<T: Scalar>(x: Seq<T>, proj: Seq<T>, from: nat, to: nat) -> Seq<T> {
    if proj.len() == 0 {
        ops::fitted(x, to)
    } else {
        ops::linear_row(x, proj, Seq::empty(), from, to)
    }
}

pub fn project_row<T: Scalar>(x: &[T], proj: &AlignedBuffer<T>, from: usize, to: usize) -> (r: Vec<
    T,
>)
    requires
        scalar::arithmetic::<T>(),
        x@.len() == from,
        proj@.len() == 0 || proj@.len() == to * from,
    ensures
        r@ == projected_row(x@, proj@, from as nat, to as nat),
        r@.len() == to,
{
    if proj.is_empty() {
        fit(x, to)
    } else {
        let none: Vec<T> = Vec::new();
        linear_vec(x, proj.as_slice(), none.as_slice(), from, to)
    }
}

impl<T: Scalar> WorldModel<T> {
    /// The weights of encoder and dynamics have their sizes.
    pub open spec fn wf(&self) -> bool {
        let enc = self.config.encoder.hidden_size as nat;
        &&& self.dynamics_wf()
        &&& self.encoder.wf()
        &&& self.encoder.config == jepa::without_classes(self.config.encoder)
        &&& self.state_proj@.len() == 0 || self.state_proj@.len() == self.config.latent_dim * enc
    }

    /// The weights of the dynamics part have their sizes.
    pub open spec fn dynamics_wf(&self) -> bool {
        let dyn_h = self.config.dynamics_hidden_size as nat;
        &&& vit::stack_wf(self.dynamics_layers@, dyn_h)
        &&& self.dynamics_norm_weight@.len() == dyn_h
        &&& self.action_embed@.len() == 0 || self.action_embed@.len() == dyn_h
            * self.config.action_dim
        &&& self.output_proj@.len() == 0 || self.output_proj@.len() == self.config.latent_dim
            * dyn_h
    }

    /// The state that follows `state` under `action`.
    pub open spec fn next_of<M: Math<T>>(&self, state: Seq<T>, action: Seq<T>) -> Seq<T> {
        let dyn_h = self.config.dynamics_hidden_size as nat;
        let tokens = ops::fitted(state, dyn_h) + projected_row(
            action,
            self.action_embed@,
            self.config.action_dim as nat,
            dyn_h,
        );
        let x = vit::encoded::<T, M>(
            self.dynamics_layers@,
            tokens,
            2,
            self.dynamics_layers@.len(),
        );
        projected_row(
            norm::normed_row::<T, M>(
                self.dynamics_norm,
                ops::row(x, 0, dyn_h as int),
                self.dynamics_norm_weight@,
            ),
            self.output_proj@,
            dyn_h,
            self.config.latent_dim as nat,
        )
    }

    /// The state after the first `n` actions.
    pub open spec fn state_after<M: Math<T>>(&self, initial: Seq<T>, actions: Seq<Vec<T>>, n: nat) -> Seq<
        T,
    >
        decreases n,
    {
        if n == 0 {
            initial
        } else {
            self.next_of::<M>(
                self.state_after::<M>(initial, actions, (n - 1) as nat),
                actions[n - 1]@,
            )
        }
    }

    /// Encode an observation (image) to a latent state.
    pub fn encode<M: Math<T>>(&self, image: &[T], h: usize, w: usize) -> (r: LatentState<T>)
        requires
            scalar::mathematics::<T, M>(),
            self.wf(),
            self.encoder.image_fits(image@, h as int, w as int),
        ensures
            r.embedding@ == projected_row(
                self.encoder.image_embedding::<M>(image@, h as nat, w as nat),
                self.state_proj@,
                self.config.encoder.hidden_size as nat,
                self.config.latent_dim as nat,
            ),
            r.embedding@.len() == self.config.latent_dim,
    {
        let out = self.encoder.forward_image::<M>(image, h, w);
        let embedding = project_row(
            out.embeddings.as_slice(),
            &self.state_proj,
            self.config.encoder.hidden_size,
            self.config.latent_dim,
        );
        LatentState { embedding }
    }

    /// Predict the next latent state given current state and action.
    pub fn predict_next<M: Math<T>>(&self, state: &LatentState<T>, action: &[T]) -> (r: LatentState<
        T,
    >)
        requires
            scalar::mathematics::<T, M>(),
            self.dynamics_wf(),
            state.embedding@.len() == self.config.latent_dim,
            action@.len() == self.config.action_dim,
        ensures
            r.embedding@ == self.next_of::<M>(state.embedding@, action@),
            r.embedding@.len() == self.config.latent_dim,
    {
        let dyn_h = self.config.dynamics_hidden_size;
        let mut x = fit(state.embedding.as_slice(), dyn_h);
        let action_token = project_row(
            action,
            &self.action_embed,
            self.config.action_dim,
            dyn_h,
        );
        extend(&mut x, action_token.as_slice());
        let x = run_layers::<T, M>(&self.dynamics_layers, x, 2, dyn_h);
        proof {
            ops::lemma_row_bounds(0, 2, dyn_h as int);
        }
        let normed = normalize_row::<T, M>(
            self.dynamics_norm,
            row_slice(x.as_slice(), 0, dyn_h),
            self.dynamics_norm_weight.as_slice(),
        );
        let embedding = project_row(
            normed.as_slice(),
            &self.output_proj,
            dyn_h,
            self.config.latent_dim,
        );
        LatentState { embedding }
    }

    /// Multi-step rollout: predict a sequence of future states from actions.
    pub fn rollout<M: Math<T>>(&self, initial: &LatentState<T>, actions: &Vec<Vec<T>>) -> (r:
        WorldModelOutput<T>)
        requires
            scalar::mathematics::<T, M>(),
            self.dynamics_wf(),
            initial.embedding@.len() == self.config.latent_dim,
            forall|i: int|
                0 <= i < actions@.len() ==> (#[trigger] actions@[i])@.len()
                    == self.config.action_dim,
        ensures
            r.states@.len() == actions@.len(),
            forall|i: int|
                0 <= i < r.states@.len() ==> (#[trigger] r.states@[i]).embedding@
                    == self.state_after::<M>(initial.embedding@, actions@, (i + 1) as nat),
    {
        let mut states: Vec<LatentState<T>> = Vec::with_capacity(actions.len());
        let mut current = LatentState { embedding: copy_slice(initial.embedding.as_slice()) };
        for i in 0..actions.len()
            invariant
                scalar::mathematics::<T, M>(),
                self.dynamics_wf(),
                forall|i: int|
                    0 <= i < actions@.len() ==> (#[trigger] actions@[i])@.len()
                        == self.config.action_dim,
                current.embedding@.len() == self.config.latent_dim,
                current.embedding@ == self.state_after::<M>(
                    initial.embedding@,
                    actions@,
                    i as nat,
                ),
                states@.len() == i,
                forall|j: int|
                    0 <= j < i ==> (#[trigger] states@[j]).embedding@ == self.state_after::<M>(
                        initial.embedding@,
                        actions@,
                        (j + 1) as nat,
                    ),
        {
            current = self.predict_next::<M>(&current, actions[i].as_slice());
            states.push(LatentState { embedding: copy_slice(current.embedding.as_slice()) });
        }
        WorldModelOutput { states }
    }

    /// A rollout can be cut anywhere: going on from the state after the first
    /// actions gives the states of the whole rollout.
    pub proof fn lemma_rollout_continues<M: Math<T>>(
        &self,
        initial: Seq<T>,
        first: Seq<Vec<T>>,
        second: Seq<Vec<T>>,
        n: nat,
    )
        requires
            n <= second.len(),
        ensures
            self.state_after::<M>(initial, first + second, first.len() + n) == self.state_after::<
                M,
            >(self.state_after::<M>(initial, first, first.len()), second, n),
        decreases n,
    {
        if n == 0 {
            self.lemma_prefix_decides::<M>(initial, first, second, first.len());
        } else {
            self.lemma_rollout_continues::<M>(initial, first, second, (n - 1) as nat);
            assert((first + second)[first.len() + n - 1] == second[n - 1]);
        }
    }

    proof fn lemma_prefix_decides<M: Math<T>>(
        &self,
        initial: Seq<T>,
        first: Seq<Vec<T>>,
        second: Seq<Vec<T>>,
        n: nat,
    )
        requires
            n <= first.len(),
        ensures
            self.state_after::<M>(initial, first + second, n) == self.state_after::<M>(
                initial,
                first,
                n,
            ),
        decreases n,
    {
        if n > 0 {
            self.lemma_prefix_decides::<M>(initial, first, second, (n - 1) as nat);
        }
    }
}

// ── Real-time rollout ────────────────────────────────────────────────

/// Real-time world model rollout for robotics and planning.
///
/// Maintains a latent state that evolves through action-conditioned
/// dynamics predictions.
pub struct RealtimeRollout<T> {
    pub model: WorldModel<T>,
    pub current_state: LatentState<T>,
    pub step_count: usize,
}

impl<T: Scalar> RealtimeRollout<T> {
    /// The state fits the model.
    pub open spec fn wf(&self) -> bool {
        &&& self.model.dynamics_wf()
        &&& self.current_state.embedding@.len() == self.model.config.latent_dim
    }

    /// Create a new rollout session from a world model.
    pub fn new(model: WorldModel<T>) -> (r: Self)
        requires
            scalar::arithmetic::<T>(),
        ensures
            r.model == model,
            r.current_state.embedding@ == buffer::repeated(
                scalar::zero::<T>(),
                model.config.latent_dim as nat,
            ),
            r.step_count == 0,
    {
        let latent_dim = model.config.latent_dim;
        RealtimeRollout {
            model,
            current_state: LatentState { embedding: filled(T::default(), latent_dim) },
            step_count: 0,
        }
    }

    /// Reset the rollout by encoding a new observation (image).
    pub fn reset<M: Math<T>>(&mut self, image: &[T], h: usize, w: usize)
        requires
            scalar::mathematics::<T, M>(),
            old(self).model.wf(),
            old(self).model.encoder.image_fits(image@, h as int, w as int),
        ensures
            final(self).model == old(self).model,
            final(self).current_state.embedding@ == projected_row(
                old(self).model.encoder.image_embedding::<M>(image@, h as nat, w as nat),
                old(self).model.state_proj@,
                old(self).model.config.encoder.hidden_size as nat,
                old(self).model.config.latent_dim as nat,
            ),
            final(self).step_count == 0,
            final(self).wf(),
    {
        self.current_state = self.model.encode::<M>(image, h, w);
        self.step_count = 0;
    }

    /// Reset with a pre-encoded latent state.
    pub fn reset_with_state(&mut self, state: LatentState<T>)
        ensures
            final(self).model == old(self).model,
            final(self).current_state == state,
            final(self).step_count == 0,
    {
        self.current_state = state;
        self.step_count = 0;
    }

    /// Single dynamics step: predict next state given current state + action.
    /// Returns the new latent state.
    pub fn step<M: Math<T>>(&mut self, action: &[T]) -> (r: &LatentState<T>)
        requires
            scalar::mathematics::<T, M>(),
            old(self).wf(),
            action@.len() == old(self).model.config.action_dim,
            old(self).step_count < usize::MAX,
        ensures
            *r == final(self).current_state,
            final(self).model == old(self).model,
            final(self).current_state.embedding@ == old(self).model.next_of::<M>(
                old(self).current_state.embedding@,
                action@,
            ),
            final(self).step_count == old(self).step_count + 1,
            final(self).wf(),
    {
        self.current_state = self.model.predict_next::<M>(&self.current_state, action);
        self.step_count += 1;
        &self.current_state
    }

    /// Plan ahead: rollout N steps with given actions without modifying current state.
    /// Returns predicted trajectory without advancing the internal state.
    pub fn plan<M: Math<T>>(&self, actions: &Vec<Vec<T>>) -> (r: Vec<LatentState<T>>)
        requires
            scalar::mathematics::<T, M>(),
            self.wf(),
            forall|i: int|
                0 <= i < actions@.len() ==> (#[trigger] actions@[i])@.len()
                    == self.model.config.action_dim,
        ensures
            r@.len() == actions@.len(),
            forall|i: int|
                0 <= i < r@.len() ==> (#[trigger] r@[i]).embedding@ == self.model.state_after::<M>(
                    self.current_state.embedding@,
                    actions@,
                    (i + 1) as nat,
                ),
    {
        let output = self.model.rollout::<M>(&self.current_state, actions);
        output.states
    }

    /// Current latent state.
    pub fn state(&self) -> (r: &LatentState<T>)
        ensures
            *r == self.current_state,
    {
        &self.current_state
    }

    /// Number of dynamics steps taken since last reset.
    pub fn steps(&self) -> (r: usize)
        ensures
            r == self.step_count,
    {
        self.step_count
    }

    /// Access the underlying world model.
    pub fn model(&self) -> (r: &WorldModel<T>)
        ensures
            *r == self.model,
    {
        &self.model
    }
}

/// What is planned ahead is what happens: after the first action of a plan is
/// taken, the rest of the actions lead through the rest of the planned states.
pub proof fn lemma_plan_after_step<T: Scalar, M: Math<T>>(
    model: WorldModel<T>,
    state: Seq<T>,
    actions: Seq<Vec<T>>,
    n: nat,
)
    requires
        n < actions.len(),
    ensures
        model.state_after::<M>(state, actions, n + 1) == model.state_after::<M>(
            model.next_of::<M>(state, actions[0]@),
            actions.skip(1),
            n,
        ),
    decreases n,
{
    if n > 0 {
        lemma_plan_after_step::<T, M>(model, state, actions, (n - 1) as nat);
        assert(actions.skip(1)[n - 1] == actions[n as int]);
    } else {
        assert(model.state_after::<M>(state, actions, 0) == state);
    }
}

/// What is planned ahead is what happens: the states that the actions lead
/// through step by step are the planned ones.
pub proof fn lemma_plan_is_steps<T: Scalar, M: Math<T>>(
    model: WorldModel<T>,
    states: Seq<Seq<T>>,
    actions: Seq<Vec<T>>,
    n: nat,
)
    requires
        n < states.len(),
        n <= actions.len(),
        forall|i: int|
            0 <= i < n ==> #[trigger] states[i + 1] == model.next_of::<M>(states[i], actions[i]@),
    ensures
        states[n as int] == model.state_after::<M>(states[0], actions, n),
    decreases n,
{
    if n > 0 {
        lemma_plan_is_steps::<T, M>(model, states, actions, (n - 1) as nat);
        assert(states[(n - 1) + 1] == model.next_of::<M>(states[n - 1], actions[n - 1]@));
    }
}

} // verus!
