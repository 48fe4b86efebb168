//! LeWM prediction with the predictor layers on a GPU device. The tokens and
//! the readout stay on the host.

use vstd::prelude::*;

use crate::buffer::copy_slice;
use crate::models::vision::lewm::LeWorldModel;
use crate::ops;
use crate::ops::row_slice;
use crate::scalar;
use crate::scalar::{Math, Scalar};

verus! {

/// The kernel that a device runs the predictor layers with.
#[derive(Debug, Clone, Copy, PartialEq, Eq, Structural)]
pub enum PredictorKernel {
    /// All layers in one command buffer.
    Layered,
    /// One dispatch per layer.
    Fused,
    /// One dispatch per layer, with vectorized dot products.
    FusedV3,
}

/// A device that holds the predictor's weights and runs its layers.
pub trait PredictorDevice<T> {
    /// The token rows after all predictor layers under a conditioning.
    fn predict(&self, kernel: PredictorKernel, seq: &[T], conditioning: &[T]) -> Vec<T>;
}

/// Running the layers on a device can give `y`.
pub open spec fn predicts_to<T, D: PredictorDevice<T>>(
    device: D,
    kernel: PredictorKernel,
    seq: Seq<T>,
    conditioning: Seq<T>,
    y: Seq<T>,
) -> bool {
    exists|s: &[T], c: &[T], v: Vec<T>|
        s@ == seq && c@ == conditioning && v@ == y && #[trigger] call_ensures(
            D::predict,
            (&device, kernel, s, c),
            v,
        )
}

/// The token rows that a device computes.
pub open spec fn predicted_on<T, D: PredictorDevice<T>>(
    device: D,
    kernel: PredictorKernel,
    seq: Seq<T>,
    conditioning: Seq<T>,
) -> Seq<T> {
    choose|y: Seq<T>| predicts_to(device, kernel, seq, conditioning, y)
}

/// A device's result is a function of what it is given, and has as many
/// elements as the token rows.
pub open spec fn predicting<T, D: PredictorDevice<T>>() -> bool {
    &&& forall|device: &D, kernel: PredictorKernel, s: &[T], c: &[T], v: Vec<T>| #[trigger]
        call_ensures(D::predict, (device, kernel, s, c), v) ==> v@ == predicted_on(
            *device,
            kernel,
            s@,
            c@,
        )
    &&& forall|device: D, kernel: PredictorKernel, s: Seq<T>, c: Seq<T>|
        (#[trigger] predicted_on(device, kernel, s, c)).len() == s.len()
}

impl<T: Scalar> LeWorldModel<T> {
    /// The state that follows `z` under `action`, predicted on a device.
    pub open spec fn next_on<M: Math<T>, D: PredictorDevice<T>>(
        &self,
        device: D,
        kernel: PredictorKernel,
        z: Seq<T>,
        action: Seq<T>,
    ) -> Seq<T> {
        let a = self.action_embedding::<M>(action);
        let x = predicted_on(
            device,
            kernel,
            self.predictor_input(self.tokens_of(z, a), 3),
            self.conditioning_of(a),
        );
        self.state_of::<M>(ops::row(x, 2, self.config.predictor_hidden as int))
    }

    /// The state after the first `n` actions, predicted on a device.
    pub open spec fn state_on<M: Math<T>, D: PredictorDevice<T>>(
        &self,
        device: D,
        z: Seq<T>,
        actions: Seq<Vec<T>>,
        n: nat,
    ) -> Seq<T>
        decreases n,
    {
        if n == 0 {
            z
        } else {
            self.next_on::<M, D>(
                device,
                PredictorKernel::Layered,
                self.state_on::<M, D>(device, z, actions, (n - 1) as nat),
                actions[n - 1]@,
            )
        }
    }

    /// Predict the next latent state with one of the device's kernels.
    pub fn predict_next_on<M: Math<T>, D: PredictorDevice<T>>(
        &self,
        z_t: &[T],
        action: &[T],
        device: &D,
        kernel: PredictorKernel,
    ) -> (r: Vec<T>)
        requires
            scalar::mathematics::<T, M>(),
            predicting::<T, D>(),
            self.predictor_wf(),
            z_t@.len() == self.config.latent_dim,
            action@.len() == self.config.action_dim,
        ensures
            r@ == self.next_on::<M, D>(*device, kernel, z_t@, action@),
            r@.len() == self.pred_proj.output_width(self.config.predictor_hidden as nat),
    {
        let hidden = self.config.predictor_hidden;
        // 1. Encode action on the host (tiny, not worth the device)
        let a_embed = self.encode_action::<M>(action);
        // 2. Build input sequence and apply projections on the host
        let tokens = self.build_tokens(z_t, a_embed.as_slice());
        let (seq, conditioning) = if !self.input_proj_weight.is_empty() {
            (
                self.apply_input_proj(tokens.as_slice(), 3),
                self.apply_cond_proj(a_embed.as_slice()),
            )
        } else {
            (tokens, a_embed)
        };
        // 3. Run predictor layers on the device
        let output = device.predict(kernel, seq.as_slice(), conditioning.as_slice());
        // 4. Final norm of the target position (index 2), projected back
        proof {
            ops::lemma_row_bounds(2, 3, hidden as int);
        }
        self.read_state::<M>(row_slice(output.as_slice(), 2, hidden))
    }

    /// Predict the next latent state using GPU acceleration: all predictor
    /// layers in a single command buffer.
    ///
    /// `z_t`: `[latent_dim]` -- current latent state.
    /// `action`: `[action_dim]` -- action to condition on.
    /// Returns `[latent_dim]` -- predicted next latent state.
    pub fn predict_next_metal<M: Math<T>, D: PredictorDevice<T>>(
        &self,
        z_t: &[T],
        action: &[T],
        device: &D,
    ) -> (r: Vec<T>)
        requires
            scalar::mathematics::<T, M>(),
            predicting::<T, D>(),
            self.predictor_wf(),
            z_t@.len() == self.config.latent_dim,
            action@.len() == self.config.action_dim,
        ensures
            r@ == self.next_on::<M, D>(*device, PredictorKernel::Layered, z_t@, action@),
            r@.len() == self.pred_proj.output_width(self.config.predictor_hidden as nat),
    {
        self.predict_next_on::<M, D>(z_t, action, device, PredictorKernel::Layered)
    }

    /// Fused GPU predict: ONE kernel dispatch per layer.
    pub fn predict_next_metal_fused<M: Math<T>, D: PredictorDevice<T>>(
        &self,
        z_t: &[T],
        action: &[T],
        device: &D,
    ) -> (r: Vec<T>)
        requires
            scalar::mathematics::<T, M>(),
            predicting::<T, D>(),
            self.predictor_wf(),
            z_t@.len() == self.config.latent_dim,
            action@.len() == self.config.action_dim,
        ensures
            r@ == self.next_on::<M, D>(*device, PredictorKernel::Fused, z_t@, action@),
            r@.len() == self.pred_proj.output_width(self.config.predictor_hidden as nat),
    {
        self.predict_next_on::<M, D>(z_t, action, device, PredictorKernel::Fused)
    }

    /// V3: Fused GPU predict with vectorized dot products.
    pub fn predict_next_metal_v3<M: Math<T>, D: PredictorDevice<T>>(
        &self,
        z_t: &[T],
        action: &[T],
        device: &D,
    ) -> (r: Vec<T>)
        requires
            scalar::mathematics::<T, M>(),
            predicting::<T, D>(),
            self.predictor_wf(),
            z_t@.len() == self.config.latent_dim,
            action@.len() == self.config.action_dim,
        ensures
            r@ == self.next_on::<M, D>(*device, PredictorKernel::FusedV3, z_t@, action@),
            r@.len() == self.pred_proj.output_width(self.config.predictor_hidden as nat),
    {
        self.predict_next_on::<M, D>(z_t, action, device, PredictorKernel::FusedV3)
    }

    /// Multi-step rollout using GPU acceleration. The device is reused across
    /// all steps.
    pub fn rollout_metal<M: Math<T>, D: PredictorDevice<T>>(
        &self,
        z_start: &[T],
        actions: &Vec<Vec<T>>,
        device: &D,
    ) -> (r: Vec<Vec<T>>)
        requires
            scalar::mathematics::<T, M>(),
            predicting::<T, D>(),
            self.predictor_wf(),
            self.pred_proj.output_width(self.config.predictor_hidden as nat)
                == self.config.latent_dim,
            z_start@.len() == self.config.latent_dim,
            forall|i: int|
                0 <= i < actions@.len() ==> (#[trigger] actions@[i])@.len()
                    == self.config.action_dim,
        ensures
            r@.len() == actions@.len(),
            forall|i: int|
                0 <= i < r@.len() ==> (#[trigger] r@[i])@ == self.state_on::<M, D>(
                    *device,
                    z_start@,
                    actions@,
                    (i + 1) as nat,
                ),
    {
        let mut states: Vec<Vec<T>> = Vec::with_capacity(actions.len());
        let mut z = copy_slice(z_start);
        for n in 0..actions.len()
            invariant
                scalar::mathematics::<T, M>(),
                predicting::<T, D>(),
                self.predictor_wf(),
                self.pred_proj.output_width(self.config.predictor_hidden as nat)
                    == self.config.latent_dim,
                forall|i: int|
                    0 <= i < actions@.len() ==> (#[trigger] actions@[i])@.len()
                        == self.config.action_dim,
                z@.len() == self.config.latent_dim,
                z@ == self.state_on::<M, D>(*device, z_start@, actions@, n as nat),
                states@.len() == n,
                forall|i: int|
                    0 <= i < n ==> (#[trigger] states@[i])@ == self.state_on::<M, D>(
                        *device,
                        z_start@,
                        actions@,
                        (i + 1) as nat,
                    ),
        {
            z = self.predict_next_metal::<M, D>(z.as_slice(), actions[n].as_slice(), device);
            states.push(copy_slice(z.as_slice()));
        }
        states
    }
}

/// A device whose layers compute what the model's do predicts what the host
/// predicts.
pub proof fn lemma_device_agrees<T: Scalar, M: Math<T>, D: PredictorDevice<T>>(
    model: LeWorldModel<T>,
    device: D,
    kernel: PredictorKernel,
    z: Seq<T>,
    action: Seq<T>,
)
    requires
        ({
            let a = model.action_embedding::<M>(action);
            predicted_on(
                device,
                kernel,
                model.predictor_input(model.tokens_of(z, a), 3),
                model.conditioning_of(a),
            ) == model.predicted_rows::<M>(
                model.tokens_of(z, a),
                model.conditioning_of(a),
                3,
            )
        }),
    ensures
        model.next_on::<M, D>(device, kernel, z, action) == model.next_of::<M>(z, action),
{
}

} // verus!
