//! LeWorldModel (LeWM) — JEPA-based world model for planning in latent space.
//!
//! Architecture: ViT encoder → projector → DiT predictor (adaLN) → pred_proj.
//! The predictor uses adaptive layer normalization (adaLN) conditioned on the
//! action embedding, following the DiT/LeJEPA design.

use vstd::prelude::*;
use vstd::slice::slice_subrange;

use crate::buffer;
use crate::buffer::{copy_into, copy_slice, extend, filled, grow, AlignedBuffer};
use crate::config::BITS_1E_6;
use crate::json;
use crate::json::{parse, Json, JsonTree};
use crate::models::vision::adaln;
use crate::models::vision::adaln::{AdaLNShape, AdaLNTransformerLayer, LeWMBuffers};
use crate::models::vision::vit::{ViTConfig, ViTModel};
use crate::ops;
use crate::ops::{
    activate_all, add_row_bias, add_vecs_inplace, layer_normalize, linear, linear_vec, row_slice,
    Activation,
};
use crate::scalar;
use crate::scalar::{Math, Scalar};

verus! {

/// Configuration for a LeWorldModel.
#[derive(Debug, Clone, Copy, PartialEq, Eq, Structural)]
pub struct LeWMConfig {
    pub image_size: usize,
    pub patch_size: usize,
    pub channels: usize,
    pub encoder_hidden: usize,
    pub encoder_layers: usize,
    pub encoder_heads: usize,
    pub encoder_inter: usize,
    pub predictor_hidden: usize,
    pub predictor_layers: usize,
    pub predictor_heads: usize,
    pub predictor_inner_dim: usize,
    pub predictor_inter: usize,
    pub action_dim: usize,
    pub latent_dim: usize,
}

/// The PushT checkpoint's configuration.
pub open spec fn pusht_config() -> LeWMConfig {
    LeWMConfig {
        image_size: 224,
        patch_size: 14,
        channels: 3,
        encoder_hidden: 192,
        encoder_layers: 6,
        encoder_heads: 3,
        encoder_inter: 768,
        predictor_hidden: 192,
        predictor_layers: 6,
        predictor_heads: 16,
        predictor_inner_dim: 1024,
        predictor_inter: 2048,
        action_dim: 10,
        latent_dim: 192,
    }
}

/// The ViT encoder of a configuration: without a classifier.
pub open spec fn encoder_config(c: LeWMConfig) -> ViTConfig {
    ViTConfig {
        image_size: c.image_size,
        patch_size: c.patch_size,
        channels: c.channels,
        hidden_size: c.encoder_hidden,
        num_layers: c.encoder_layers,
        num_heads: c.encoder_heads,
        intermediate_size: c.encoder_inter,
        num_classes: 0,
    }
}

impl LeWMConfig {
    /// Default configuration matching the PushT checkpoint.
    pub fn pusht() -> (r: Self)
        ensures
            r == pusht_config(),
    {
        LeWMConfig {
            image_size: 224,
            patch_size: 14,
            channels: 3,
            encoder_hidden: 192,
            encoder_layers: 6,
            encoder_heads: 3,
            encoder_inter: 768,
            predictor_hidden: 192,
            predictor_layers: 6,
            predictor_heads: 16,
            predictor_inner_dim: 1024,
            predictor_inter: 2048,
            action_dim: 10,
            latent_dim: 192,
        }
    }

    /// Slim configuration: 96d latent, 4 encoder layers, 4 predictor layers.
    /// Predictor internals stay at 192d; uses input_proj/cond_proj to bridge.
    pub fn slim() -> (r: Self)
        ensures
            r == (LeWMConfig {
                encoder_layers: 4,
                predictor_layers: 4,
                latent_dim: 96,
                ..pusht_config()
            }),
    {
        LeWMConfig {
            image_size: 224,
            patch_size: 14,
            channels: 3,
            encoder_hidden: 192,
            encoder_layers: 4,
            encoder_heads: 3,
            encoder_inter: 768,
            predictor_hidden: 192,
            predictor_layers: 4,
            predictor_heads: 16,
            predictor_inner_dim: 1024,
            predictor_inter: 2048,
            action_dim: 10,
            latent_dim: 96,
        }
    }

    /// Whether this config has a latent bottleneck (latent_dim != predictor_hidden).
    pub fn has_projection(&self) -> (r: bool)
        ensures
            r == (self.latent_dim != self.predictor_hidden),
    {
        self.latent_dim != self.predictor_hidden
    }

    pub fn predictor_head_dim(&self) -> (r: usize)
        requires
            self.predictor_heads > 0,
        ensures
            r == self.predictor_inner_dim as int / self.predictor_heads as int,
    {
        self.predictor_inner_dim / self.predictor_heads
    }

    /// The widths of the predictor's layers.
    pub open spec fn spec_shape(&self) -> AdaLNShape {
        AdaLNShape {
            hidden: self.predictor_hidden,
            num_heads: self.predictor_heads,
            inner_dim: self.predictor_inner_dim,
            inter: self.predictor_inter,
        }
    }

    pub fn shape(&self) -> (r: AdaLNShape)
        ensures
            r == self.spec_shape(),
    {
        AdaLNShape {
            hidden: self.predictor_hidden,
            num_heads: self.predictor_heads,
            inner_dim: self.predictor_inner_dim,
            inter: self.predictor_inter,
        }
    }

    /// The buffers for `rows` token rows have lengths that are machine
    /// integers.
    pub open spec fn rows_fit(&self, rows: nat) -> bool {
        &&& rows <= usize::MAX
        &&& 6 * self.predictor_hidden <= usize::MAX
        &&& 3 * self.predictor_inner_dim <= usize::MAX
        &&& rows * self.predictor_hidden <= usize::MAX
        &&& rows * (3 * self.predictor_inner_dim) <= usize::MAX
        &&& rows * self.predictor_inner_dim <= usize::MAX
        &&& rows * self.predictor_inter <= usize::MAX
        &&& rows * self.latent_dim <= usize::MAX
    }
}

impl<T: Scalar> LeWMBuffers<T> {
    /// The buffers for single predictions: three token rows.
    pub fn new(config: &LeWMConfig) -> (r: Self)
        requires
            scalar::arithmetic::<T>(),
            config.rows_fit(3),
        ensures
            r.seq@ == buffer::repeated(scalar::zero::<T>(), (3 * config.predictor_hidden) as nat),
            r.mod_params@ == buffer::repeated(
                scalar::zero::<T>(),
                (6 * config.predictor_hidden) as nat,
            ),
            r.normed@ == r.seq@,
            r.qkv@ == buffer::repeated(
                scalar::zero::<T>(),
                (3 * (3 * config.predictor_inner_dim)) as nat,
            ),
            r.attn_out@ == buffer::repeated(
                scalar::zero::<T>(),
                (3 * config.predictor_inner_dim) as nat,
            ),
            r.proj@ == r.seq@,
            r.ffn_inter@ == buffer::repeated(
                scalar::zero::<T>(),
                (3 * config.predictor_inter) as nat,
            ),
            r.ffn_out@ == r.seq@,
            r.q_split@ == r.attn_out@,
            r.k_split@ == r.attn_out@,
            r.v_split@ == r.attn_out@,
            r.mod_copy@ == r.mod_params@,
            r.latent_seq@ == buffer::repeated(scalar::zero::<T>(), (3 * config.latent_dim) as nat),
            r.cond@ == buffer::repeated(scalar::zero::<T>(), config.predictor_hidden as nat),
            r.scores_buf@ == buffer::repeated(scalar::zero::<T>(), 9),
            r.packed_a@.len() == 0,
            r.packed_b@.len() == 0,
            r.holds(3, config.spec_shape()),
    {
        let h = config.predictor_hidden;
        let inner = config.predictor_inner_dim;
        let inter = config.predictor_inter;
        let zero = T::default();
        LeWMBuffers {
            seq: filled(zero, 3 * h),
            mod_params: filled(zero, 6 * h),
            normed: filled(zero, 3 * h),
            qkv: filled(zero, 3 * (3 * inner)),
            attn_out: filled(zero, 3 * inner),
            proj: filled(zero, 3 * h),
            ffn_inter: filled(zero, 3 * inter),
            ffn_out: filled(zero, 3 * h),
            q_split: filled(zero, 3 * inner),
            k_split: filled(zero, 3 * inner),
            v_split: filled(zero, 3 * inner),
            mod_copy: filled(zero, 6 * h),
            latent_seq: filled(zero, 3 * config.latent_dim),
            cond: filled(zero, h),
            scores_buf: filled(zero, 9),
            packed_a: Vec::new(),
            packed_b: Vec::new(),
        }
    }
}

// ── Projection head ──────────────────────────────────────────────────

/// 3-layer MLP projection head: hidden → inter → inter → hidden.
pub struct ProjectionHead<T> {
    pub layers: Vec<(AlignedBuffer<T>, AlignedBuffer<T>)>,
}

impl<T: Copy> ProjectionHead<T> {
    /// The weight or the bias of layer `i`.
    pub open spec fn part(&self, i: int, bias: bool) -> Option<Seq<T>> {
        if 0 <= i < self.layers@.len() {
            Some(
                if bias {
                    self.layers@[i].1@
                } else {
                    self.layers@[i].0@
                },
            )
        } else {
            None
        }
    }

    /// Create a projection head with zeroed weights.
    pub fn new_zeroed(num_layers: usize) -> (r: Self)
        ensures
            r.layers@.len() == num_layers,
            forall|i: int, b: bool|
                (#[trigger] r.part(i, b)) is Some ==> r.part(i, b)->0 == Seq::<T>::empty(),
    {
        let mut layers: Vec<(AlignedBuffer<T>, AlignedBuffer<T>)> = Vec::with_capacity(num_layers);
        for n in 0..num_layers
            invariant
                layers@.len() == n,
                forall|i: int|
                    0 <= i < n ==> (#[trigger] layers@[i]).0@ == Seq::<T>::empty()
                        && layers@[i].1@ == Seq::<T>::empty(),
        {
            layers.push((AlignedBuffer::empty(), AlignedBuffer::empty()));
        }
        ProjectionHead { layers }
    }

    /// A head with the same weights.
    pub fn duplicate(&self) -> (r: Self)
        ensures
            r.layers@.len() == self.layers@.len(),
            forall|i: int, b: bool| #[trigger] r.part(i, b) == self.part(i, b),
    {
        let mut layers: Vec<(AlignedBuffer<T>, AlignedBuffer<T>)> = Vec::with_capacity(
            self.layers.len(),
        );
        for n in 0..self.layers.len()
            invariant
                layers@.len() == n,
                forall|i: int|
                    0 <= i < n ==> (#[trigger] layers@[i]).0@ == self.layers@[i].0@
                        && layers@[i].1@ == self.layers@[i].1@,
        {
            let pair = &self.layers[n];
            layers.push((pair.0.duplicate(), pair.1.duplicate()));
        }
        ProjectionHead { layers }
    }
}

impl<T: Scalar> ProjectionHead<T> {
    /// The width of a row after the first `n` layers. A layer without a
    /// weight is passed over.
    pub open spec fn width_after(&self, width: nat, n: nat) -> nat
        decreases n,
    {
        if n == 0 {
            width
        } else {
            let before = self.width_after(width, (n - 1) as nat);
            let len = self.layers@[n - 1].0@.len();
            if len == 0 {
                before
            } else {
                len / before
            }
        }
    }

    /// Each layer's weight is made for rows of the width that reaches it.
    pub open spec fn fits(&self, width: nat) -> bool {
        forall|i: nat|
            i < self.layers@.len() && self.layers@[i as int].0@.len() > 0 ==> {
                let before = #[trigger] self.width_after(width, i);
                let len = self.layers@[i as int].0@.len();
                &&& before > 0
                &&& len % before == 0
                &&& self.layers@[i as int].1@.len() == 0 || len / before
                    <= self.layers@[i as int].1@.len()
            }
    }

    /// A row after the first `n` layers: linear, with GELU between layers and
    /// not after the last.
    pub open spec fn after<M: Math<T>>(&self, x: Seq<T>, n: nat) -> Seq<T>
        decreases n,
    {
        if n == 0 {
            x
        } else {
            let before = self.after::<M>(x, (n - 1) as nat);
            let weight = self.layers@[n - 1].0@;
            if weight.len() == 0 {
                before
            } else {
                let y = ops::linear_row(
                    before,
                    weight,
                    self.layers@[n - 1].1@,
                    before.len(),
                    weight.len() / before.len(),
                );
                if n < self.layers@.len() {
                    ops::all_activated::<T, M>(Activation::Gelu, y)
                } else {
                    y
                }
            }
        }
    }

    /// A row through the head.
    pub open spec fn output<M: Math<T>>(&self, x: Seq<T>) -> Seq<T> {
        self.after::<M>(x, self.layers@.len())
    }

    /// The width of the head's output rows.
    pub open spec fn output_width(&self, width: nat) -> nat {
        self.width_after(width, self.layers@.len())
    }

    /// Forward pass through the projection MLP.
    ///
    /// Applies GELU activation between layers (not after the last).
    pub fn forward<M: Math<T>>(&self, x: &[T]) -> (r: Vec<T>)
        requires
            scalar::mathematics::<T, M>(),
            self.fits(x@.len()),
        ensures
            r@ == self.output::<M>(x@),
            r@.len() == self.output_width(x@.len()),
    {
        let mut current = copy_slice(x);
        for i in 0..self.layers.len()
            invariant
                scalar::mathematics::<T, M>(),
                self.fits(x@.len()),
                current@ == self.after::<M>(x@, i as nat),
                current@.len() == self.width_after(x@.len(), i as nat),
        {
            let pair = &self.layers[i];
            if !pair.0.is_empty() {
                let in_dim = current.len();
                let out_dim = pair.0.len() / in_dim;
                proof {
                    vstd::arithmetic::div_mod::lemma_fundamental_div_mod(
                        pair.0@.len() as int,
                        in_dim as int,
                    );
                    assert(in_dim * out_dim == out_dim * in_dim) by (nonlinear_arith);
                }
                let out = linear_vec(
                    current.as_slice(),
                    pair.0.as_slice(),
                    pair.1.as_slice(),
                    in_dim,
                    out_dim,
                );
                // GELU between layers, not after the last
                current =
                if i < self.layers.len() - 1 {
                    activate_all::<T, M>(Activation::Gelu, out.as_slice())
                } else {
                    out
                };
            }
        }
        current
    }
}

// ── Model ────────────────────────────────────────────────────────────

/// LeWorldModel: ViT encoder → projector → DiT predictor (adaLN) → pred_proj.
///
/// Encodes observations to latent states, then predicts future latent states
/// conditioned on actions using the DiT-style predictor with adaLN modulation.
pub struct LeWorldModel<T> {
    pub config: LeWMConfig,
    pub encoder: ViTModel<T>,
    pub predictor_layers: Vec<AdaLNTransformerLayer<T>>,
    pub predictor_pos_embed: AlignedBuffer<T>,
    pub predictor_norm_weight: AlignedBuffer<T>,
    pub predictor_norm_bias: AlignedBuffer<T>,
    // Action encoder
    pub action_conv_weight: AlignedBuffer<T>,
    pub action_conv_bias: AlignedBuffer<T>,
    pub action_mlp1_weight: AlignedBuffer<T>,
    pub action_mlp1_bias: AlignedBuffer<T>,
    pub action_mlp2_weight: AlignedBuffer<T>,
    pub action_mlp2_bias: AlignedBuffer<T>,
    // Predictor input/conditioning projections (latent_dim → predictor_hidden).
    // Empty when latent_dim == predictor_hidden (baseline, no bottleneck).
    pub input_proj_weight: AlignedBuffer<T>,
    pub input_proj_bias: AlignedBuffer<T>,
    pub cond_proj_weight: AlignedBuffer<T>,
    pub cond_proj_bias: AlignedBuffer<T>,
    // Projector (encoder → predictor space)
    pub projector: ProjectionHead<T>,
    // Pred_proj (predictor → output space)
    pub pred_proj: ProjectionHead<T>,
    /// Which form of the predictor layers an accelerated backend should run:
    /// 0 = standard (separate loops), 1 = fused (single-pass loops).
    pub fuse_mode: u8,
}

impl<T: Copy> LeWorldModel<T> {
    /// Build a LeWorldModel from config with zeroed weights.
    pub fn from_config(config: &LeWMConfig) -> (r: Self)
        requires
            config.encoder_heads > 0,
        ensures
            r.config == *config,
            r.encoder.is_new(encoder_config(*config)),
            r.predictor_layers@.len() == config.predictor_layers,
            forall|i: int|
                0 <= i < r.predictor_layers@.len() ==> (
                #[trigger] r.predictor_layers@[i]).unloaded(),
            r.predictor_pos_embed@.len() == 0,
            r.predictor_norm_weight@.len() == 0,
            r.predictor_norm_bias@.len() == 0,
            r.action_conv_weight@.len() == 0,
            r.action_conv_bias@.len() == 0,
            r.action_mlp1_weight@.len() == 0,
            r.action_mlp1_bias@.len() == 0,
            r.action_mlp2_weight@.len() == 0,
            r.action_mlp2_bias@.len() == 0,
            r.input_proj_weight@.len() == 0,
            r.input_proj_bias@.len() == 0,
            r.cond_proj_weight@.len() == 0,
            r.cond_proj_bias@.len() == 0,
            r.projector.layers@.len() == 3,
            r.pred_proj.layers@.len() == 3,
            forall|i: int, b: bool|
                (#[trigger] r.projector.part(i, b)) is Some ==> r.projector.part(i, b)->0
                    == Seq::<T>::empty(),
            forall|i: int, b: bool|
                (#[trigger] r.pred_proj.part(i, b)) is Some ==> r.pred_proj.part(i, b)->0
                    == Seq::<T>::empty(),
            r.fuse_mode == 0,
    {
        // Build encoder as standard ViT (no classifier head)
        let vit_config = ViTConfig {
            image_size: config.image_size,
            patch_size: config.patch_size,
            channels: config.channels,
            hidden_size: config.encoder_hidden,
            num_layers: config.encoder_layers,
            num_heads: config.encoder_heads,
            intermediate_size: config.encoder_inter,
            num_classes: 0,
        };
        let encoder = ViTModel::from_config(&vit_config);
        let mut predictor_layers: Vec<AdaLNTransformerLayer<T>> = Vec::with_capacity(
            config.predictor_layers,
        );
        for n in 0..config.predictor_layers
            invariant
                predictor_layers@.len() == n,
                forall|i: int| 0 <= i < n ==> (#[trigger] predictor_layers@[i]).unloaded(),
        {
            predictor_layers.push(AdaLNTransformerLayer::new_zeroed());
        }
        LeWorldModel {
            config: *config,
            encoder,
            predictor_layers,
            predictor_pos_embed: AlignedBuffer::empty(),
            predictor_norm_weight: AlignedBuffer::empty(),
            predictor_norm_bias: AlignedBuffer::empty(),
            action_conv_weight: AlignedBuffer::empty(),
            action_conv_bias: AlignedBuffer::empty(),
            action_mlp1_weight: AlignedBuffer::empty(),
            action_mlp1_bias: AlignedBuffer::empty(),
            action_mlp2_weight: AlignedBuffer::empty(),
            action_mlp2_bias: AlignedBuffer::empty(),
            input_proj_weight: AlignedBuffer::empty(),
            input_proj_bias: AlignedBuffer::empty(),
            cond_proj_weight: AlignedBuffer::empty(),
            cond_proj_bias: AlignedBuffer::empty(),
            projector: ProjectionHead::new_zeroed(3),
            pred_proj: ProjectionHead::new_zeroed(3),
            fuse_mode: 0,
        }
    }

    /// Set which form of the predictor layers an accelerated backend should run.
    pub fn set_fuse_mode(&mut self, mode: u8)
        ensures
            *final(self) == (LeWorldModel { fuse_mode: mode, ..*old(self) }),
    {
        self.fuse_mode = mode;
    }
}

/// A row through a linear layer; zeros plus the bias where no weight is loaded.
pub open spec fn linear_or_zeros<T: Scalar>(
    x: Seq<T>,
    w: Seq<T>,
    bias: Seq<T>,
    k: nat,
    n: nat,
) -> Seq<T> {
    if w.len() == 0 {
        ops::with_bias(buffer::repeated(scalar::zero(), n), bias)
    } else {
        ops::linear_row(x, w, bias, k, n)
    }
}

fn apply_linear_or_zeros<T: Scalar>(
    x: &[T],
    w: &AlignedBuffer<T>,
    bias: &AlignedBuffer<T>,
    k: usize,
    n: usize,
) -> (r: Vec<T>)
    requires
        scalar::arithmetic::<T>(),
        w@.len() == 0 || (x@.len() == k && w@.len() == n * k),
        bias@.len() == 0 || n <= bias@.len(),
    ensures
        r@ == linear_or_zeros(x@, w@, bias@, k as nat, n as nat),
        r@.len() == n,
{
    if w.is_empty() {
        let zeros = filled(T::default(), n);
        add_row_bias(zeros, bias.as_slice())
    } else {
        linear_vec(x, w.as_slice(), bias.as_slice(), k, n)
    }
}

/// The sequence after the first `n` predictor layers.
pub open spec fn layered<T: Scalar, M: Math<T>>(
    layers: Seq<AdaLNTransformerLayer<T>>,
    x: Seq<T>,
    conditioning: Seq<T>,
    rows: nat,
    n: nat,
    s: AdaLNShape,
) -> Seq<T>
    decreases n,
{
    if n == 0 {
        x
    } else {
        layers[n - 1].forward_of::<M>(
            layered::<T, M>(layers, x, conditioning, rows, (n - 1) as nat, s),
            conditioning,
            rows,
            s,
        )
    }
}

impl<T: Scalar> LeWorldModel<T> {
    /// The inner width of the action encoder.
    pub open spec fn action_inter(&self) -> nat {
        if self.action_mlp1_weight@.len() > 0 {
            self.action_mlp1_weight@.len() / self.config.action_dim as nat
        } else {
            (self.config.latent_dim * 4) as nat
        }
    }

    /// The weights of the action encoder have usable sizes.
    pub open spec fn action_wf(&self) -> bool {
        let act = self.config.action_dim;
        let latent = self.config.latent_dim;
        &&& self.action_conv_weight@.len() > 0 ==> act * act <= usize::MAX
            && self.action_conv_weight@.len() <= act * act && (self.action_conv_bias@.len() == 0
            || act <= self.action_conv_bias@.len())
        &&& self.action_mlp1_weight@.len() > 0 ==> act > 0 && self.action_mlp1_weight@.len()
            % act as nat == 0
        &&& self.action_inter() <= usize::MAX
        &&& self.action_mlp1_bias@.len() == 0 || self.action_inter()
            <= self.action_mlp1_bias@.len()
        &&& self.action_mlp2_weight@.len() == 0 || self.action_mlp2_weight@.len() == latent
            * self.action_inter()
        &&& self.action_mlp2_bias@.len() == 0 || latent <= self.action_mlp2_bias@.len()
    }

    /// An action after the convolution with kernel size 1; the action itself
    /// where none is loaded, zeros where the weight is too short.
    pub open spec fn action_conv(&self, action: Seq<T>) -> Seq<T> {
        let act = self.config.action_dim as nat;
        if self.action_conv_weight@.len() == 0 {
            action
        } else if self.action_conv_weight@.len() < act * act {
            ops::with_bias(buffer::repeated(scalar::zero(), act), self.action_conv_bias@)
        } else {
            ops::linear_row(
                action,
                self.action_conv_weight@,
                self.action_conv_bias@,
                act,
                act,
            )
        }
    }

    /// The embedding of an action: convolution, then an MLP with GELU.
    pub open spec fn action_embedding<M: Math<T>>(&self, action: Seq<T>) -> Seq<T> {
        let inner = ops::all_activated::<T, M>(
            Activation::Gelu,
            linear_or_zeros(
                self.action_conv(action),
                self.action_mlp1_weight@,
                self.action_mlp1_bias@,
                self.config.action_dim as nat,
                self.action_inter(),
            ),
        );
        linear_or_zeros(
            inner,
            self.action_mlp2_weight@,
            self.action_mlp2_bias@,
            self.action_inter(),
            self.config.latent_dim as nat,
        )
    }

    /// Encode an observation image to a latent state in predictor space.
    ///
    /// `image`: flat `[H * W * C]` pixel data.
    /// Returns `[latent_dim]` latent embedding.
    pub fn encode<M: Math<T>>(&self, image: &[T], h: usize, w: usize) -> (r: Vec<T>)
        requires
            scalar::mathematics::<T, M>(),
            self.encoder.wf(),
            self.encoder.image_fits(image@, h as int, w as int),
            self.projector.fits(self.encoder.config.hidden_size as nat),
        ensures
            r@ == self.projector.output::<M>(
                self.encoder.image_embedding::<M>(image@, h as nat, w as nat),
            ),
            r@.len() == self.projector.output_width(self.encoder.config.hidden_size as nat),
    {
        // ViT encoder → CLS embedding [encoder_hidden]
        let vit_out = self.encoder.forward_image::<M>(image, h, w);
        // Project to predictor space
        self.projector.forward::<M>(vit_out.embeddings.as_slice())
    }

    /// Encode an action vector to an action embedding.
    ///
    /// `action`: `[action_dim]` (e.g. `[10]`).
    /// Returns `[latent_dim]` (== `predictor_hidden` when no projection).
    pub fn encode_action<M: Math<T>>(&self, action: &[T]) -> (r: Vec<T>)
        requires
            scalar::mathematics::<T, M>(),
            self.action_wf(),
            action@.len() == self.config.action_dim,
        ensures
            r@ == self.action_embedding::<M>(action@),
            r@.len() == self.config.latent_dim,
    {
        let act_dim = self.config.action_dim;
        let hidden = self.config.latent_dim;
        // 1. 1D conv with kernel_size=1 is equivalent to a linear layer
        let conv_out = if self.action_conv_weight.is_empty() {
            copy_slice(action)
        } else if self.action_conv_weight.len() >= act_dim * act_dim {
            linear_vec(
                action,
                self.action_conv_weight.as_slice(),
                self.action_conv_bias.as_slice(),
                act_dim,
                act_dim,
            )
        } else {
            let zeros = filled(T::default(), act_dim);
            add_row_bias(zeros, self.action_conv_bias.as_slice())
        };
        // 2. MLP: [act_dim] → [inter] (GELU) → [latent_dim]
        let inter = if !self.action_mlp1_weight.is_empty() {
            proof {
                let len = self.action_mlp1_weight@.len() as int;
                vstd::arithmetic::div_mod::lemma_fundamental_div_mod(len, act_dim as int);
                assert(act_dim * (len / act_dim as int) == (len / act_dim as int) * act_dim)
                    by (nonlinear_arith);
            }
            self.action_mlp1_weight.len() / act_dim
        } else {
            hidden * 4
        };
        let h1 = apply_linear_or_zeros(
            conv_out.as_slice(),
            &self.action_mlp1_weight,
            &self.action_mlp1_bias,
            act_dim,
            inter,
        );
        let h1 = activate_all::<T, M>(Activation::Gelu, h1.as_slice());
        apply_linear_or_zeros(
            h1.as_slice(),
            &self.action_mlp2_weight,
            &self.action_mlp2_bias,
            inter,
            hidden,
        )
    }

    /// Apply input_proj: `[seq_len, latent_dim]` → `[seq_len, predictor_hidden]`.
    pub fn apply_input_proj(&self, seq: &[T], seq_len: usize) -> (r: Vec<T>)
        requires
            scalar::arithmetic::<T>(),
            seq@.len() == seq_len * self.config.latent_dim,
            self.input_proj_weight@.len() == self.config.predictor_hidden * self.config.latent_dim,
            self.input_proj_bias@.len() == 0 || self.config.predictor_hidden
                <= self.input_proj_bias@.len(),
        ensures
            r@ == ops::linear_of(
                seq@,
                self.input_proj_weight@,
                self.input_proj_bias@,
                seq_len as nat,
                self.config.latent_dim as nat,
                self.config.predictor_hidden as nat,
            ),
            r@.len() == seq_len * self.config.predictor_hidden,
    {
        linear(
            seq,
            self.input_proj_weight.as_slice(),
            self.input_proj_bias.as_slice(),
            seq_len,
            self.config.latent_dim,
            self.config.predictor_hidden,
        )
    }

    /// Apply cond_proj: `[latent_dim]` → `[predictor_hidden]`.
    pub fn apply_cond_proj(&self, cond: &[T]) -> (r: Vec<T>)
        requires
            scalar::arithmetic::<T>(),
            cond@.len() == self.config.latent_dim,
            self.cond_proj_weight@.len() == self.config.predictor_hidden * self.config.latent_dim,
            self.cond_proj_bias@.len() == 0 || self.config.predictor_hidden
                <= self.cond_proj_bias@.len(),
        ensures
            r@ == ops::linear_row(
                cond@,
                self.cond_proj_weight@,
                self.cond_proj_bias@,
                self.config.latent_dim as nat,
                self.config.predictor_hidden as nat,
            ),
            r@.len() == self.config.predictor_hidden,
    {
        linear_vec(
            cond,
            self.cond_proj_weight.as_slice(),
            self.cond_proj_bias.as_slice(),
            self.config.latent_dim,
            self.config.predictor_hidden,
        )
    }

    /// Whether latent rows are projected to the predictor's width.
    pub open spec fn has_input_proj(&self) -> bool {
        self.input_proj_weight@.len() > 0
    }

    /// The weights of the predictor and of the action encoder have usable
    /// sizes.
    pub open spec fn predictor_wf(&self) -> bool {
        let h = self.config.predictor_hidden;
        let latent = self.config.latent_dim;
        &&& self.action_wf()
        &&& self.config.rows_fit(3)
        &&& if self.has_input_proj() {
            &&& self.input_proj_weight@.len() == h * latent
            &&& self.input_proj_bias@.len() == 0 || h <= self.input_proj_bias@.len()
            &&& self.cond_proj_weight@.len() == h * latent
            &&& self.cond_proj_bias@.len() == 0 || h <= self.cond_proj_bias@.len()
        } else {
            latent == h
        }
        &&& forall|i: int|
            0 <= i < self.predictor_layers@.len() ==> (#[trigger] self.predictor_layers@[i]).wf(
                self.config.spec_shape(),
            )
        &&& h <= self.predictor_norm_weight@.len()
        &&& self.predictor_norm_bias@.len() == 0 || h <= self.predictor_norm_bias@.len()
        &&& self.pred_proj.fits(h as nat)
    }

    /// The three token rows of one step — state, action embedding and zeros —
    /// with the positional embeddings added.
    pub open spec fn tokens_of(&self, z: Seq<T>, a: Seq<T>) -> Seq<T> {
        ops::sum_into(
            z + a + buffer::repeated(scalar::zero(), self.config.latent_dim as nat),
            self.predictor_pos_embed@,
        )
    }

    /// Token rows at the predictor's width.
    pub open spec fn predictor_input(&self, tokens: Seq<T>, rows: nat) -> Seq<T> {
        if self.has_input_proj() {
            ops::linear_of(
                tokens,
                self.input_proj_weight@,
                self.input_proj_bias@,
                rows,
                self.config.latent_dim as nat,
                self.config.predictor_hidden as nat,
            )
        } else {
            tokens
        }
    }

    /// An action embedding at the predictor's width.
    pub open spec fn conditioning_of(&self, a: Seq<T>) -> Seq<T> {
        if self.has_input_proj() {
            ops::linear_row(
                a,
                self.cond_proj_weight@,
                self.cond_proj_bias@,
                self.config.latent_dim as nat,
                self.config.predictor_hidden as nat,
            )
        } else {
            a
        }
    }

    /// Token rows after all predictor layers.
    pub open spec fn predicted_rows<M: Math<T>>(
        &self,
        tokens: Seq<T>,
        conditioning: Seq<T>,
        rows: nat,
    ) -> Seq<T> {
        layered::<T, M>(
            self.predictor_layers@,
            self.predictor_input(tokens, rows),
            conditioning,
            rows,
            self.predictor_layers@.len(),
            self.config.spec_shape(),
        )
    }

    /// The state that a target row stands for: final norm, then pred_proj.
    pub open spec fn state_of<M: Math<T>>(&self, target: Seq<T>) -> Seq<T> {
        self.pred_proj.output::<M>(
            ops::with_bias(
                ops::layer_row::<T, M>(
                    target,
                    self.predictor_norm_weight@,
                    adaln::epsilon::<T, M>(),
                ),
                self.predictor_norm_bias@,
            ),
        )
    }

    /// The state that follows `z` under `action`: the third token row's.
    pub open spec fn next_of<M: Math<T>>(&self, z: Seq<T>, action: Seq<T>) -> Seq<T> {
        let a = self.action_embedding::<M>(action);
        let x = self.predicted_rows::<M>(self.tokens_of(z, a), self.conditioning_of(a), 3);
        self.state_of::<M>(ops::row(x, 2, self.config.predictor_hidden as int))
    }

    /// The state after the first `n` actions.
    pub open spec fn state_after<M: Math<T>>(&self, z: Seq<T>, actions: Seq<Vec<T>>, n: nat) -> Seq<
        T,
    >
        decreases n,
    {
        if n == 0 {
            z
        } else {
            self.next_of::<M>(
                self.state_after::<M>(z, actions, (n - 1) as nat),
                actions[n - 1]@,
            )
        }
    }

    /// The token rows of all steps, each from the same state.
    pub open spec fn parallel_tokens<M: Math<T>>(&self, z: Seq<T>, actions: Seq<Vec<T>>) -> Seq<
        T,
    > {
        ops::blocks(
            actions.len(),
            |i: int| self.tokens_of(z, self.action_embedding::<M>(actions[i]@)),
        )
    }

    /// The rows of all steps after the predictor layers, which see them
    /// together, conditioned on the first action.
    pub open spec fn parallel_rows<M: Math<T>>(&self, z: Seq<T>, actions: Seq<Vec<T>>) -> Seq<T> {
        self.predicted_rows::<M>(
            self.parallel_tokens::<M>(z, actions),
            self.conditioning_of(self.action_embedding::<M>(actions[0]@)),
            3 * actions.len(),
        )
    }

    /// The state of step `i` when all steps are predicted together.
    pub open spec fn parallel_state<M: Math<T>>(
        &self,
        z: Seq<T>,
        actions: Seq<Vec<T>>,
        i: int,
    ) -> Seq<T> {
        self.state_of::<M>(
            ops::row(
                self.parallel_rows::<M>(z, actions),
                3 * i + 2,
                self.config.predictor_hidden as int,
            ),
        )
    }

    /// Builds the three token rows of one step.
    pub fn build_tokens(&self, z: &[T], a: &[T]) -> (r: Vec<T>)
        requires
            scalar::arithmetic::<T>(),
            z@.len() == self.config.latent_dim,
            a@.len() == self.config.latent_dim,
        ensures
            r@ == self.tokens_of(z@, a@),
            r@.len() == 3 * self.config.latent_dim,
            forall|j: int|
                0 <= j < r@.len() ==> #[trigger] r@[j] == {
                    let n = self.config.latent_dim as int;
                    let e = if j < n {
                        z@[j]
                    } else if j < 2 * n {
                        a@[j - n]
                    } else {
                        scalar::zero()
                    };
                    if j < self.predictor_pos_embed@.len() {
                        scalar::plus(e, self.predictor_pos_embed@[j])
                    } else {
                        e
                    }
                },
    {
        let mut seq = copy_slice(z);
        extend(&mut seq, a);
        let zeros = filled(T::default(), self.config.latent_dim);
        extend(&mut seq, zeros.as_slice());
        add_vecs_inplace(&mut seq, self.predictor_pos_embed.as_slice());
        seq
    }

    pub fn read_state<M: Math<T>>(&self, target: &[T]) -> (r: Vec<T>)
        requires
            scalar::mathematics::<T, M>(),
            self.predictor_wf(),
            target@.len() == self.config.predictor_hidden,
        ensures
            r@ == self.state_of::<M>(target@),
            r@.len() == self.pred_proj.output_width(self.config.predictor_hidden as nat),
    {
        let eps = M::from_binary64(BITS_1E_6);
        let n = layer_normalize::<T, M>(target, self.predictor_norm_weight.as_slice(), eps);
        let n = add_row_bias(n, self.predictor_norm_bias.as_slice());
        self.pred_proj.forward::<M>(n.as_slice())
    }

    /// Predict the next latent state given current latent and action.
    ///
    /// `z_t`: `[latent_dim]` — current latent state.
    /// `action`: `[action_dim]` — action to condition on.
    /// Returns `[latent_dim]` — predicted next latent state.
    pub fn predict_next<M: Math<T>>(&self, z_t: &[T], action: &[T]) -> (r: Vec<T>)
        requires
            scalar::mathematics::<T, M>(),
            self.predictor_wf(),
            z_t@.len() == self.config.latent_dim,
            action@.len() == self.config.action_dim,
        ensures
            r@ == self.next_of::<M>(z_t@, action@),
            r@.len() == self.pred_proj.output_width(self.config.predictor_hidden as nat),
    {
        let c = &self.config;
        let hidden = c.predictor_hidden;
        // 1. Encode action → [latent_dim]
        let a_embed = self.encode_action::<M>(action);
        // 2. Build input sequence at latent_dim, positional embeddings added
        let tokens = self.build_tokens(z_t, a_embed.as_slice());
        let ghost t = tokens@;
        // 3. Apply projections if bottleneck architecture
        let (mut seq, conditioning) = if !self.input_proj_weight.is_empty() {
            (
                self.apply_input_proj(tokens.as_slice(), 3),
                self.apply_cond_proj(a_embed.as_slice()),
            )
        } else {
            (tokens, a_embed)
        };
        let ghost x0 = seq@;
        // 4. Run through predictor layers
        for i in 0..self.predictor_layers.len()
            invariant
                scalar::mathematics::<T, M>(),
                self.predictor_wf(),
                *c == self.config,
                hidden == c.predictor_hidden,
                conditioning@.len() == hidden,
                seq@.len() == 3 * hidden,
                seq@ == layered::<T, M>(
                    self.predictor_layers@,
                    x0,
                    conditioning@,
                    3,
                    i as nat,
                    self.config.spec_shape(),
                ),
        {
            seq =
            self.predictor_layers[i].forward::<M>(
                seq.as_slice(),
                conditioning.as_slice(),
                3,
                hidden,
                c.predictor_heads,
                c.predictor_inner_dim,
                c.predictor_inter,
            );
        }
        // 5. Final norm of the target position (index 2), projected back
        proof {
            ops::lemma_row_bounds(2, 3, hidden as int);
        }
        self.read_state::<M>(row_slice(seq.as_slice(), 2, hidden))
    }

    /// Multi-step rollout: predict a sequence of future latent states.
    ///
    /// `z_start`: `[latent_dim]` — initial latent state.
    /// `actions`: slice of action vectors, each `[action_dim]`.
    /// Returns one predicted latent state per action.
    pub fn rollout<M: Math<T>>(&self, z_start: &[T], actions: &Vec<Vec<T>>) -> (r: Vec<Vec<T>>)
        requires
            scalar::mathematics::<T, M>(),
            self.predictor_wf(),
            self.pred_proj.output_width(self.config.predictor_hidden as nat)
                == self.config.latent_dim,
            z_start@.len() == self.config.latent_dim,
            forall|i: int|
                0 <= i < actions@.len() ==> (#[trigger] actions@[i])@.len()
                    == self.config.action_dim,
        ensures
            r@.len() == actions@.len(),
            forall|i: int|
                0 <= i < r@.len() ==> (#[trigger] r@[i])@ == self.state_after::<M>(
                    z_start@,
                    actions@,
                    (i + 1) as nat,
                ),
            forall|i: int| 0 <= i < r@.len() ==> (#[trigger] r@[i])@.len() == self.config.latent_dim,
    {
        let mut states: Vec<Vec<T>> = Vec::with_capacity(actions.len());
        let mut z = copy_slice(z_start);
        for n in 0..actions.len()
            invariant
                scalar::mathematics::<T, M>(),
                self.predictor_wf(),
                self.pred_proj.output_width(self.config.predictor_hidden as nat)
                    == self.config.latent_dim,
                forall|i: int|
                    0 <= i < actions@.len() ==> (#[trigger] actions@[i])@.len()
                        == self.config.action_dim,
                z@.len() == self.config.latent_dim,
                z@ == self.state_after::<M>(z_start@, actions@, n as nat),
                states@.len() == n,
                forall|i: int|
                    0 <= i < n ==> (#[trigger] states@[i])@ == self.state_after::<M>(
                        z_start@,
                        actions@,
                        (i + 1) as nat,
                    ),
                forall|i: int|
                    0 <= i < n ==> (#[trigger] states@[i])@.len() == self.config.latent_dim,
        {
            z = self.predict_next::<M>(z.as_slice(), actions[n].as_slice());
            states.push(copy_slice(z.as_slice()));
        }
        states
    }

    /// Runs the predictor layers in place on the first rows of `bufs.seq`.
    fn run_layers_into<M: Math<T>>(&self, bufs: &mut LeWMBuffers<T>, rows: usize)
        requires
            scalar::mathematics::<T, M>(),
            self.predictor_wf(),
            old(bufs).holds(rows as nat, self.config.spec_shape()),
        ensures
            final(bufs).sizes() == old(bufs).sizes(),
            final(bufs).seq@.take(rows * self.config.predictor_hidden) == layered::<T, M>(
                self.predictor_layers@,
                old(bufs).seq@.take(rows * self.config.predictor_hidden),
                old(bufs).cond@.take(self.config.predictor_hidden as int),
                rows as nat,
                self.predictor_layers@.len(),
                self.config.spec_shape(),
            ),
    {
        let s = self.config.shape();
        let ghost start = *bufs;
        for i in 0..self.predictor_layers.len()
            invariant
                scalar::mathematics::<T, M>(),
                self.predictor_wf(),
                s == self.config.spec_shape(),
                start.holds(rows as nat, s),
                bufs.sizes() == start.sizes(),
                bufs.cond == start.cond,
                bufs.seq@.take(rows * self.config.predictor_hidden) == layered::<T, M>(
                    self.predictor_layers@,
                    start.seq@.take(rows * self.config.predictor_hidden),
                    start.cond@.take(self.config.predictor_hidden as int),
                    rows as nat,
                    i as nat,
                    s,
                ),
        {
            proof {
                adaln::lemma_holds(bufs, start.sizes(), rows as nat, s);
            }
            self.predictor_layers[i].forward_into::<M>(bufs, rows, s);
        }
    }

    /// Predict the next latent state using fused kernels and pre-allocated buffers.
    ///
    /// Functionally identical to `predict_next`, but works in `bufs`, which
    /// keep their lengths and can be used again.
    ///
    /// `z_t`: `[latent_dim]` -- current latent state.
    /// `action`: `[action_dim]` -- action to condition on.
    /// `bufs`: pre-allocated buffers (reused across calls).
    /// Returns `[latent_dim]` -- predicted next latent state.
    pub fn predict_next_fused<M: Math<T>>(
        &self,
        z_t: &[T],
        action: &[T],
        bufs: &mut LeWMBuffers<T>,
    ) -> (r: Vec<T>)
        requires
            scalar::mathematics::<T, M>(),
            self.predictor_wf(),
            z_t@.len() == self.config.latent_dim,
            action@.len() == self.config.action_dim,
            old(bufs).holds(3, self.config.spec_shape()),
            self.has_input_proj() ==> 3 * self.config.latent_dim <= old(bufs).latent_seq@.len(),
        ensures
            r@ == self.next_of::<M>(z_t@, action@),
            r@.len() == self.pred_proj.output_width(self.config.predictor_hidden as nat),
            final(bufs).sizes() == old(bufs).sizes(),
    {
        let hidden = self.config.predictor_hidden;
        let latent = self.config.latent_dim;
        let ghost sizes = bufs.sizes();
        let ghost start = *bufs;
        // 1. Encode action -> [latent_dim]
        let a_embed = self.encode_action::<M>(action);
        // 2. Build input sequence and apply projections
        let tokens = self.build_tokens(z_t, a_embed.as_slice());
        if !self.input_proj_weight.is_empty() {
            copy_into(&mut bufs.latent_seq, 0, tokens.as_slice());
            let projected = self.apply_input_proj(
                slice_subrange(bufs.latent_seq.as_slice(), 0, 3 * latent),
                3,
            );
            assert(bufs.latent_seq@.subrange(0, 3 * latent) =~= tokens@);
            copy_into(&mut bufs.seq, 0, projected.as_slice());
            let cond = self.apply_cond_proj(a_embed.as_slice());
            copy_into(&mut bufs.cond, 0, cond.as_slice());
            assert(bufs.seq@.take(3 * hidden) =~= projected@);
            assert(bufs.cond@.take(hidden as int) =~= cond@);
        } else {
            copy_into(&mut bufs.seq, 0, tokens.as_slice());
            copy_into(&mut bufs.cond, 0, a_embed.as_slice());
            assert(bufs.seq@.take(3 * hidden) =~= tokens@);
            assert(bufs.cond@.take(hidden as int) =~= a_embed@);
        }
        assert(bufs.sizes() =~= sizes);
        proof {
            adaln::lemma_holds(bufs, sizes, 3, self.config.spec_shape());
        }
        // 3. Run through predictor layers
        self.run_layers_into::<M>(bufs, 3);
        // 4. Final norm of the target position (index 2), projected back
        proof {
            ops::lemma_row_bounds(2, 3, hidden as int);
            adaln::lemma_holds(bufs, sizes, 3, self.config.spec_shape());
        }
        let rows = slice_subrange(bufs.seq.as_slice(), 0, 3 * hidden);
        assert(rows@ =~= bufs.seq@.take(3 * hidden));
        self.read_state::<M>(row_slice(rows, 2, hidden))
    }

    /// Multi-step rollout using fused kernels.
    ///
    /// Allocates `LeWMBuffers` once and reuses across all steps.
    pub fn rollout_fused<M: Math<T>>(&self, z_start: &[T], actions: &Vec<Vec<T>>) -> (r: Vec<
        Vec<T>,
    >)
        requires
            scalar::mathematics::<T, M>(),
            self.predictor_wf(),
            self.pred_proj.output_width(self.config.predictor_hidden as nat)
                == self.config.latent_dim,
            z_start@.len() == self.config.latent_dim,
            forall|i: int|
                0 <= i < actions@.len() ==> (#[trigger] actions@[i])@.len()
                    == self.config.action_dim,
        ensures
            r@.len() == actions@.len(),
            forall|i: int|
                0 <= i < r@.len() ==> (#[trigger] r@[i])@ == self.state_after::<M>(
                    z_start@,
                    actions@,
                    (i + 1) as nat,
                ),
    {
        let mut bufs = LeWMBuffers::new(&self.config);
        let ghost sizes = bufs.sizes();
        let mut states: Vec<Vec<T>> = Vec::with_capacity(actions.len());
        let mut z = copy_slice(z_start);
        for n in 0..actions.len()
            invariant
                scalar::mathematics::<T, M>(),
                self.predictor_wf(),
                self.pred_proj.output_width(self.config.predictor_hidden as nat)
                    == self.config.latent_dim,
                forall|i: int|
                    0 <= i < actions@.len() ==> (#[trigger] actions@[i])@.len()
                        == self.config.action_dim,
                bufs.holds(3, self.config.spec_shape()),
                bufs.sizes() == sizes,
                sizes.len() == 17,
                sizes[12] == 3 * self.config.latent_dim,
                z@.len() == self.config.latent_dim,
                z@ == self.state_after::<M>(z_start@, actions@, n as nat),
                states@.len() == n,
                forall|i: int|
                    0 <= i < n ==> (#[trigger] states@[i])@ == self.state_after::<M>(
                        z_start@,
                        actions@,
                        (i + 1) as nat,
                    ),
        {
            assert(bufs.sizes()[12] == bufs.latent_seq@.len());
            let ghost before = bufs.sizes();
            z = self.predict_next_fused::<M>(z.as_slice(), actions[n].as_slice(), &mut bufs);
            proof {
                adaln::lemma_holds(&bufs, before, 3, self.config.spec_shape());
            }
            states.push(copy_slice(z.as_slice()));
        }
        states
    }

    /// Fused multi-step predictor: runs all predictor layers once over an N×3-token
    /// sequence, where N = actions.len().
    ///
    /// Constructs the sequence as: `[z_start, a_0, zeros, z_start, a_1, zeros, ...]`.
    /// Same `z_start` for all positions — produces **parallel hypothesis futures**, not
    /// a sequential autoregressive chain. Bidirectional attention naturally attends
    /// across all step tokens, giving the model cross-step context for free.
    ///
    /// `z_start`: `[latent_dim]` — initial latent state.
    /// `actions`: action vectors, each `[action_dim]`; at least one.
    /// `bufs`: pre-allocated buffers. Will be resized if needed for seq_len = N*3.
    /// Returns one predicted latent state per action, whatever the buffers held.
    pub fn predict_rollout_fused<M: Math<T>>(
        &self,
        z_start: &[T],
        actions: &Vec<Vec<T>>,
        bufs: &mut LeWMBuffers<T>,
    ) -> (r: Vec<Vec<T>>)
        requires
            scalar::mathematics::<T, M>(),
            self.predictor_wf(),
            actions@.len() > 0,
            self.config.rows_fit(3 * actions@.len()),
            self.predictor_pos_embed@.len() == 0 || 2 * self.config.latent_dim
                <= self.predictor_pos_embed@.len(),
            z_start@.len() == self.config.latent_dim,
            forall|i: int|
                0 <= i < actions@.len() ==> (#[trigger] actions@[i])@.len()
                    == self.config.action_dim,
        ensures
            r@.len() == actions@.len(),
            forall|i: int|
                0 <= i < r@.len() ==> (#[trigger] r@[i])@ == self.parallel_state::<M>(
                    z_start@,
                    actions@,
                    i,
                ),
            final(bufs).sizes() == old(bufs).sizes_for(self.config, 3 * actions@.len()),
    {
        let hidden = self.config.predictor_hidden;
        let latent = self.config.latent_dim;
        let num_steps = actions.len();
        let rows = num_steps * 3;
        let ghost s = self.config.spec_shape();
        let ghost wanted = bufs.sizes_for(self.config, rows as nat);
        bufs.reserve_rows(&self.config, rows);
        let ghost f = |i: int| self.tokens_of(z_start@, self.action_embedding::<M>(actions@[i]@));
        // 1. Encode the actions and build the token rows of every step.
        let first = self.encode_action::<M>(actions[0].as_slice());
        let mut tokens: Vec<T> = Vec::new();
        assert(0 * (3 * self.config.latent_dim) == 0) by (nonlinear_arith);
        for i in 0..num_steps
            invariant
                scalar::mathematics::<T, M>(),
                self.predictor_wf(),
                num_steps == actions@.len(),
                z_start@.len() == self.config.latent_dim,
                forall|i: int|
                    0 <= i < actions@.len() ==> (#[trigger] actions@[i])@.len()
                        == self.config.action_dim,
                f == (|i: int|
                    self.tokens_of(z_start@, self.action_embedding::<M>(actions@[i]@))),
                tokens@ == ops::blocks(i as nat, f),
                tokens@.len() == i * (3 * self.config.latent_dim),
        {
            let a_embed = self.encode_action::<M>(actions[i].as_slice());
            let step = self.build_tokens(z_start, a_embed.as_slice());
            extend(&mut tokens, step.as_slice());
            assert(tokens@ =~= ops::blocks((i + 1) as nat, f));
            assert((i + 1) * (3 * self.config.latent_dim) == i * (3 * self.config.latent_dim) + 3
                * self.config.latent_dim) by (nonlinear_arith);
        }
        assert(num_steps * (3 * latent) == rows * latent) by (nonlinear_arith)
            requires
                rows == num_steps * 3,
        ;
        // 2. Bring the sequence to the predictor's width; the first action
        // conditions all steps.
        if !self.input_proj_weight.is_empty() {
            copy_into(&mut bufs.latent_seq, 0, tokens.as_slice());
            let len = rows * latent;
            let projected = self.apply_input_proj(
                slice_subrange(bufs.latent_seq.as_slice(), 0, len),
                rows,
            );
            assert(bufs.latent_seq@.subrange(0, rows * latent) =~= tokens@);
            copy_into(&mut bufs.seq, 0, projected.as_slice());
            let cond = self.apply_cond_proj(first.as_slice());
            copy_into(&mut bufs.cond, 0, cond.as_slice());
            assert(bufs.seq@.take(rows * hidden) =~= projected@);
            assert(bufs.cond@.take(hidden as int) =~= cond@);
        } else {
            copy_into(&mut bufs.seq, 0, tokens.as_slice());
            copy_into(&mut bufs.cond, 0, first.as_slice());
            assert(bufs.seq@.take(rows * hidden) =~= tokens@);
            assert(bufs.cond@.take(hidden as int) =~= first@);
        }
        assert(bufs.sizes() =~= wanted);
        proof {
            assert(rows as nat == 3 * actions@.len());
            adaln::lemma_holds(bufs, wanted, rows as nat, s);
        }
        // 3. Run all predictor layers once over the fused sequence.
        self.run_layers_into::<M>(bufs, rows);
        proof {
            adaln::lemma_holds(bufs, wanted, rows as nat, s);
        }
        // 4. Read the targets at positions 2, 5, 8, ...
        let ghost x = self.parallel_rows::<M>(z_start@, actions@);
        let len = rows * hidden;
        let seq = slice_subrange(bufs.seq.as_slice(), 0, len);
        assert(seq@ =~= x);
        let mut outputs: Vec<Vec<T>> = Vec::with_capacity(num_steps);
        for i in 0..num_steps
            invariant
                scalar::mathematics::<T, M>(),
                self.predictor_wf(),
                num_steps == actions@.len(),
                rows == num_steps * 3,
                hidden == self.config.predictor_hidden,
                seq@.len() == rows * hidden,
                seq@ == self.parallel_rows::<M>(z_start@, actions@),
                outputs@.len() == i,
                forall|k: int|
                    0 <= k < i ==> (#[trigger] outputs@[k])@ == self.parallel_state::<M>(
                        z_start@,
                        actions@,
                        k,
                    ),
        {
            proof {
                ops::lemma_row_bounds(3 * i + 2, rows as int, hidden as int);
            }
            outputs.push(self.read_state::<M>(row_slice(seq, 3 * i + 2, hidden)));
        }
        outputs
    }

    // ── Laws ─────────────────────────────────────────────────────────

    /// Predicting a single action among "all steps together" is the ordinary
    /// prediction of the next state.
    pub proof fn lemma_single_step<M: Math<T>>(&self, z: Seq<T>, action: Vec<T>)
        ensures
            self.parallel_state::<M>(z, seq![action], 0) == self.next_of::<M>(z, action@),
    {
        let actions = seq![action];
        let f = |i: int| self.tokens_of(z, self.action_embedding::<M>(actions[i]@));
        assert(ops::blocks(1, f) =~= f(0)) by {
            assert(ops::blocks(0, f) =~= Seq::empty());
        }
    }

    /// A rollout can be cut anywhere: going on from the state after the first
    /// actions gives the states of the whole rollout.
    pub proof fn lemma_rollout_continues<M: Math<T>>(
        &self,
        z: Seq<T>,
        first: Seq<Vec<T>>,
        second: Seq<Vec<T>>,
        n: nat,
    )
        requires
            n <= second.len(),
        ensures
            self.state_after::<M>(z, first + second, first.len() + n) == self.state_after::<M>(
                self.state_after::<M>(z, first, first.len()),
                second,
                n,
            ),
        decreases n,
    {
        if n == 0 {
            self.lemma_prefix_decides::<M>(z, first, second, first.len());
        } else {
            self.lemma_rollout_continues::<M>(z, first, second, (n - 1) as nat);
            assert((first + second)[first.len() + n - 1] == second[n - 1]);
        }
    }

    proof fn lemma_prefix_decides<M: Math<T>>(
        &self,
        z: Seq<T>,
        first: Seq<Vec<T>>,
        second: Seq<Vec<T>>,
        n: nat,
    )
        requires
            n <= first.len(),
        ensures
            self.state_after::<M>(z, first + second, n) == self.state_after::<M>(z, first, n),
        decreases n,
    {
        if n > 0 {
            self.lemma_prefix_decides::<M>(z, first, second, (n - 1) as nat);
        }
    }
}

/// The larger of two lengths.
pub open spec fn at_least(len: nat, n: nat) -> nat {
    if len < n {
        n
    } else {
        len
    }
}

impl<T> LeWMBuffers<T> {
    /// The lengths after making room for `rows` token rows.
    pub open spec fn sizes_for(&self, c: LeWMConfig, rows: nat) -> Seq<nat> {
        let h = c.predictor_hidden as nat;
        let inner = c.predictor_inner_dim as nat;
        let inter = c.predictor_inter as nat;
        let scratch = at_least(rows * h, rows * inter);
        seq![
            at_least(self.seq@.len(), rows * h),
            at_least(self.mod_params@.len(), 6 * h),
            at_least(self.normed@.len(), scratch),
            at_least(self.qkv@.len(), rows * (3 * inner)),
            at_least(self.attn_out@.len(), rows * inner),
            at_least(self.proj@.len(), scratch),
            at_least(self.ffn_inter@.len(), rows * inter),
            at_least(self.ffn_out@.len(), rows * h),
            at_least(self.q_split@.len(), rows * inner),
            at_least(self.k_split@.len(), rows * inner),
            at_least(self.v_split@.len(), rows * inner),
            at_least(self.mod_copy@.len(), 6 * h),
            at_least(self.latent_seq@.len(), rows * c.latent_dim as nat),
            at_least(self.cond@.len(), h),
            self.scores_buf@.len(),
            self.packed_a@.len(),
            self.packed_b@.len(),
        ]
    }
}

impl<T: Scalar> LeWMBuffers<T> {
    /// Makes room for `rows` token rows; no buffer shrinks.
    pub fn reserve_rows(&mut self, c: &LeWMConfig, rows: usize)
        requires
            scalar::arithmetic::<T>(),
            c.rows_fit(rows as nat),
        ensures
            final(self).sizes() == old(self).sizes_for(*c, rows as nat),
            final(self).holds(rows as nat, c.spec_shape()),
            final(self).seq@ == buffer::grown(
                old(self).seq@,
                scalar::zero(),
                (rows * c.predictor_hidden) as nat,
            ),
    {
        let h = c.predictor_hidden;
        let inner = c.predictor_inner_dim;
        let inter = c.predictor_inter;
        let zero = T::default();
        let ghost wanted = self.sizes_for(*c, rows as nat);
        let seq_size = rows * h;
        let inter_size = rows * inter;
        let scratch = if seq_size < inter_size {
            inter_size
        } else {
            seq_size
        };
        grow(&mut self.seq, zero, seq_size);
        grow(&mut self.normed, zero, scratch);
        grow(&mut self.proj, zero, scratch);
        grow(&mut self.mod_params, zero, 6 * h);
        grow(&mut self.mod_copy, zero, 6 * h);
        grow(&mut self.qkv, zero, rows * (3 * inner));
        grow(&mut self.attn_out, zero, rows * inner);
        grow(&mut self.q_split, zero, rows * inner);
        grow(&mut self.k_split, zero, rows * inner);
        grow(&mut self.v_split, zero, rows * inner);
        grow(&mut self.ffn_inter, zero, inter_size);
        grow(&mut self.ffn_out, zero, seq_size);
        grow(&mut self.latent_seq, zero, rows * c.latent_dim);
        grow(&mut self.cond, zero, h);
        assert(self.sizes() =~= wanted);
    }
}

// ── Configuration files ──────────────────────────────────────────────

/// The configuration that a JSON text describes. Missing fields fall back to
/// the PushT configuration.
pub open spec fn lewm_config_in(tree: JsonTree) -> LeWMConfig {
    LeWMConfig {
        image_size: tree.size_or("image_size"@, 224),
        patch_size: tree.size_or("patch_size"@, 14),
        channels: tree.size_or("channels"@, 3),
        encoder_hidden: tree.size_or("encoder_hidden"@, 192),
        encoder_layers: tree.size_or("encoder_layers"@, 6),
        encoder_heads: tree.size_or("encoder_heads"@, 3),
        encoder_inter: tree.size_or("encoder_inter"@, 768),
        predictor_hidden: tree.size_or("predictor_hidden"@, 192),
        predictor_layers: tree.size_or("predictor_layers"@, 6),
        predictor_heads: tree.size_or("predictor_heads"@, 16),
        predictor_inner_dim: tree.size_or("predictor_inner_dim"@, 1024),
        predictor_inter: tree.size_or("predictor_inter"@, 2048),
        action_dim: tree.size_or("action_dim"@, 10),
        latent_dim: tree.size_or("latent_dim"@, 192),
    }
}

impl LeWMConfig {
    /// Read a config off a parsed JSON text.
    pub fn from_value(v: &Json) -> (r: Self)
        ensures
            r == lewm_config_in(v@),
    {
        LeWMConfig {
            image_size: v.size_or("image_size", 224),
            patch_size: v.size_or("patch_size", 14),
            channels: v.size_or("channels", 3),
            encoder_hidden: v.size_or("encoder_hidden", 192),
            encoder_layers: v.size_or("encoder_layers", 6),
            encoder_heads: v.size_or("encoder_heads", 3),
            encoder_inter: v.size_or("encoder_inter", 768),
            predictor_hidden: v.size_or("predictor_hidden", 192),
            predictor_layers: v.size_or("predictor_layers", 6),
            predictor_heads: v.size_or("predictor_heads", 16),
            predictor_inner_dim: v.size_or("predictor_inner_dim", 1024),
            predictor_inter: v.size_or("predictor_inter", 2048),
            action_dim: v.size_or("action_dim", 10),
            latent_dim: v.size_or("latent_dim", 192),
        }
    }

    /// Parse a config from a JSON string.
    pub fn from_json_str(data: &str) -> (r: Result<Self, String>)
        ensures
            match r {
                Ok(config) => json::parsed(data@) matches Ok(tree) && config == lewm_config_in(tree),
                Err(e) => json::parsed(data@) matches Err(why) && e@
                    == "Failed to parse config JSON: "@ + why,
            },
    {
        match parse(data) {
            Ok(v) => Ok(LeWMConfig::from_value(&v)),
            Err(why) => {
                let mut e = "Failed to parse config JSON: ".to_owned();
                e.append(why.as_str());
                Err(e)
            },
        }
    }
}

} // verus!
