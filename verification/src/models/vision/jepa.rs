//! JEPA (Joint Embedding Predictive Architecture) model.
//!
//! Architecture: ViT encoder + narrow predictor transformer.
//! The predictor takes context embeddings and predicts target embeddings
//! in embedding space — no decoder, no token sampling.

use vstd::prelude::*;
use vstd::slice::slice_subrange;

use crate::buffer;
use crate::buffer::{copy_slice, extend, filled, AlignedBuffer};
use crate::config::{Binary64, NormConfig, BITS_1E_6};
use crate::models::vision::vit;
use crate::models::vision::vit::{plain_layers, run_layers, EncoderLayer, ViTConfig, ViTModel};
use crate::norm;
use crate::norm::apply_norm;
use crate::ops;
use crate::ops::{fit, linear, row_slice};
use crate::patch;
use crate::scalar;
use crate::scalar::{Math, Scalar};
use crate::weights;
use crate::weights::{KeyMapping, LoadResult, TensorMap, WeightError, WeightTarget};

verus! {

/// Configuration for a JEPA model.
#[derive(Debug, Clone, Copy, PartialEq, Eq, Structural)]
pub struct JEPAConfig {
    /// ViT encoder configuration.
    pub encoder: ViTConfig,
    /// Narrow predictor hidden size (e.g., 384 vs encoder's 768).
    pub predictor_hidden_size: usize,
    /// Shallow predictor depth (e.g., 6 vs encoder's 12).
    pub predictor_num_layers: usize,
    /// Number of attention heads in the predictor.
    pub predictor_num_heads: usize,
}

impl JEPAConfig {
    /// Predictor head dimension.
    pub fn predictor_head_dim(&self) -> (r: usize)
        requires
            self.predictor_num_heads > 0,
        ensures
            r == self.predictor_hidden_size as int / self.predictor_num_heads as int,
    {
        self.predictor_hidden_size / self.predictor_num_heads
    }

    /// Predictor intermediate (FFN) size — 4x hidden by default.
    pub fn predictor_intermediate_size(&self) -> (r: usize)
        requires
            self.predictor_hidden_size * 4 <= usize::MAX,
        ensures
            r == self.predictor_hidden_size * 4,
    {
        self.predictor_hidden_size * 4
    }
}

/// Output from a JEPA forward pass.
pub struct JEPAOutput<T> {
    /// Context patch embeddings: `[num_context_patches * embed_dim]` (flat).
    pub context_embeddings: Vec<T>,
    /// Predicted target patch embeddings: `[num_target_patches * embed_dim]` (flat).
    pub predicted_embeddings: Vec<T>,
}

/// JEPA model: ViT encoder + narrow predictor transformer.
pub struct JEPAModel<T> {
    pub config: JEPAConfig,
    pub encoder: ViTModel<T>,
    pub predictor_layers: Vec<EncoderLayer<T>>,
    pub predictor_norm: NormConfig,
    pub predictor_norm_weight: AlignedBuffer<T>,
    /// Project encoder embeddings down to predictor dim: `[encoder_dim, predictor_dim]`.
    pub predictor_embed_proj: AlignedBuffer<T>,
    /// Project predictor output back to encoder dim: `[predictor_dim, encoder_dim]`.
    pub predictor_output_proj: AlignedBuffer<T>,
}

/// A ViT configuration without classes.
pub open spec fn without_classes(c: ViTConfig) -> ViTConfig {
    ViTConfig { num_classes: 0, ..c }
}

impl<T: Copy> JEPAModel<T> {
    /// Build a JEPA model from config with zeroed weights.
    pub fn from_config(config: &JEPAConfig) -> (r: Self)
        requires
            config.encoder.num_heads > 0,
            config.predictor_num_heads > 0,
            config.predictor_hidden_size * 4 <= usize::MAX,
        ensures
            r.config == *config,
            r.encoder.is_new(without_classes(config.encoder)),
            r.predictor_layers@.len() == config.predictor_num_layers,
            forall|i: int|
                0 <= i < r.predictor_layers@.len() ==> (#[trigger] r.predictor_layers@[i]).unloaded()
                    && r.predictor_layers@[i].structure() == vit::plain_encoder(
                    config.predictor_hidden_size,
                    config.predictor_num_heads,
                    (config.predictor_hidden_size as int / config.predictor_num_heads as int) as usize,
                    (config.predictor_hidden_size * 4) as usize,
                ),
            r.predictor_norm == (NormConfig::LayerNorm { eps: Binary64 { bits: BITS_1E_6 } }),
            r.predictor_norm_weight@ == Seq::<T>::empty(),
            r.predictor_embed_proj@ == Seq::<T>::empty(),
            r.predictor_output_proj@ == Seq::<T>::empty(),
    {
        let predictor_layers = plain_layers(
            config.predictor_num_layers,
            config.predictor_hidden_size,
            config.predictor_num_heads,
            config.predictor_head_dim(),
            config.predictor_intermediate_size(),
        );
        // Build ViT encoder with num_classes=0 (no classifier head).
        let mut enc_config = config.encoder;
        enc_config.num_classes = 0;
        let encoder = ViTModel::from_config(&enc_config);
        JEPAModel {
            config: *config,
            encoder,
            predictor_layers,
            predictor_norm: NormConfig::LayerNorm { eps: Binary64 { bits: BITS_1E_6 } },
            predictor_norm_weight: AlignedBuffer::empty(),
            predictor_embed_proj: AlignedBuffer::empty(),
            predictor_output_proj: AlignedBuffer::empty(),
        }
    }

    /// Load weights into the ViT encoder from source tensors whose keys are
    /// renamed by `mapping`. The predictor stays as it is.
    pub fn load_encoder_weights(&mut self, weights: &TensorMap<T>, mapping: KeyMapping) -> (r: Result<
        LoadResult,
        WeightError,
    >)
        requires
            weights.wf(),
        ensures
            r is Ok,
            final(self).encoder.structure() == old(self).encoder.structure(),
            weights::loaded_as(old(self).encoder, final(self).encoder, *weights, mapping, r),
            final(self).config == old(self).config,
            final(self).predictor_layers == old(self).predictor_layers,
            final(self).predictor_norm == old(self).predictor_norm,
            final(self).predictor_norm_weight == old(self).predictor_norm_weight,
            final(self).predictor_embed_proj == old(self).predictor_embed_proj,
            final(self).predictor_output_proj == old(self).predictor_output_proj,
    {
        self.encoder.load_weights(weights, mapping)
    }
}

/// How many of the first `n` flags are set; flags that are not there count as
/// not set.
pub open spec fn count_set(mask: Seq<bool>, n: nat) -> nat
    decreases n,
{
    if n == 0 {
        0
    } else {
        count_set(mask, (n - 1) as nat) + if n <= mask.len() && mask[n - 1] {
            1nat
        } else {
            0nat
        }
    }
}

/// The rows, of the first `n`, whose flag is set.
pub open spec fn rows_set<T>(x: Seq<T>, mask: Seq<bool>, n: nat, w: int) -> Seq<T>
    decreases n,
{
    if n == 0 {
        Seq::empty()
    } else {
        rows_set(x, mask, (n - 1) as nat, w) + if n <= mask.len() && mask[n - 1] {
            ops::row(x, n - 1, w)
        } else {
            Seq::empty()
        }
    }
}

/// Each of `rows` rows cut off or filled up from width `w` to width `n`.
pub open spec fn fitted_rows<T: Scalar>(x: Seq<T>, rows: nat, w: nat, n: nat) -> Seq<T> {
    ops::blocks(rows, |i: int| ops::fitted(ops::row(x, i, w as int), n))
}

/// Truncates or zero-pads every row.
pub fn fit_rows<T: Scalar>(x: &[T], rows: usize, w: usize, n: usize) -> (r: Vec<T>)
    requires
        scalar::arithmetic::<T>(),
        x@.len() == rows * w,
    ensures
        r@ == fitted_rows(x@, rows as nat, w as nat, n as nat),
        r@.len() == rows * n,
{
    let ghost f = |i: int| ops::fitted(ops::row(x@, i, w as int), n as nat);
    let mut out: Vec<T> = Vec::new();
    for i in 0..rows
        invariant
            scalar::arithmetic::<T>(),
            x@.len() == rows * w,
            f == (|i: int| ops::fitted(ops::row(x@, i, w as int), n as nat)),
            out@ == ops::blocks(i as nat, f),
    {
        proof {
            ops::lemma_row_bounds(i as int, rows as int, w as int);
        }
        let y = fit(row_slice(x, i, w), n);
        extend(&mut out, y.as_slice());
        assert(out@ =~= ops::blocks((i + 1) as nat, f));
    }
    proof {
        ops::lemma_blocks_len(rows as nat, f, n as nat);
    }
    out
}

/// Rows through a projection, or fitted to its width where none is loaded.
pub open spec fn projected_rows<T: Scalar>(
    x: Seq<T>,
    proj: Seq<T>,
    rows: nat,
    from: nat,
    to: nat,
) -> Seq<T> {
    if proj.len() == 0 {
        fitted_rows(x, rows, from, to)
    } else {
        ops::linear_of(x, proj, Seq::empty(), rows, from, to)
    }
}

pub fn project_rows<T: Scalar>(
    x: &[T],
    proj: &AlignedBuffer<T>,
    rows: usize,
    from: usize,
    to: usize,
) -> (r: Vec<T>)
    requires
        scalar::arithmetic::<T>(),
        x@.len() == rows * from,
        proj@.len() == 0 || proj@.len() == to * from,
    ensures
        r@ == projected_rows(x@, proj@, rows as nat, from as nat, to as nat),
        r@.len() == rows * to,
{
    if proj.is_empty() {
        fit_rows(x, rows, from, to)
    } else {
        let none: Vec<T> = Vec::new();
        linear(x, proj.as_slice(), none.as_slice(), rows, from, to)
    }
}

impl<T: Scalar> JEPAModel<T> {
    /// The weights of encoder and predictor have their sizes.
    pub open spec fn wf(&self) -> bool {
        let enc = self.encoder.config.hidden_size as nat;
        let pred = self.config.predictor_hidden_size as nat;
        &&& self.encoder.wf()
        &&& self.encoder.config == without_classes(self.config.encoder)
        &&& vit::stack_wf(self.predictor_layers@, pred)
        &&& self.predictor_norm_weight@.len() == pred
        &&& self.predictor_embed_proj@.len() == 0 || self.predictor_embed_proj@.len() == pred * enc
        &&& self.predictor_output_proj@.len() == 0 || self.predictor_output_proj@.len() == enc
            * pred
    }

    /// The rows of all patches after the encoder and its final norm, without
    /// the CLS row.
    pub open spec fn patch_embeddings<M: Math<T>>(&self, image: Seq<T>, h: nat, w: nat) -> Seq<T> {
        let enc = self.config.encoder.hidden_size as nat;
        norm::normed::<T, M>(
            self.encoder.final_norm,
            self.encoder.encoded_rows::<M>(self.encoder.patch_rows(image, h, w)),
            self.encoder.final_norm_weight@,
            enc,
            (self.config.encoder.spec_num_patches() + 1) as nat,
        ).skip(enc as int)
    }

    /// The embeddings of the context patches.
    pub open spec fn context_of<M: Math<T>>(
        &self,
        image: Seq<T>,
        h: nat,
        w: nat,
        context_mask: Seq<bool>,
    ) -> Seq<T> {
        rows_set(
            self.patch_embeddings::<M>(image, h, w),
            context_mask,
            self.config.encoder.spec_num_patches() as nat,
            self.config.encoder.hidden_size as int,
        )
    }

    /// The predictions for `targets` patches from `contexts` context rows.
    pub open spec fn predicted_of<M: Math<T>>(
        &self,
        context: Seq<T>,
        contexts: nat,
        targets: nat,
    ) -> Seq<T> {
        let enc = self.config.encoder.hidden_size as nat;
        let pred = self.config.predictor_hidden_size as nat;
        let input = projected_rows(context, self.predictor_embed_proj@, contexts, enc, pred)
            + buffer::repeated(scalar::zero(), targets * pred);
        let total = contexts + targets;
        let x = vit::encoded::<T, M>(
            self.predictor_layers@,
            input,
            total,
            self.predictor_layers@.len(),
        );
        let normed = norm::normed::<T, M>(
            self.predictor_norm,
            x,
            self.predictor_norm_weight@,
            pred,
            total,
        );
        projected_rows(
            normed.skip((contexts * pred) as int),
            self.predictor_output_proj@,
            targets,
            pred,
            enc,
        )
    }

    /// Run the ViT encoder and return patch-level embeddings (without CLS).
    ///
    /// Returns `[num_patches, hidden_size]` (flat).
    fn encode_patches<M: Math<T>>(&self, image: &[T], height: usize, width: usize) -> (r: Vec<T>)
        requires
            scalar::mathematics::<T, M>(),
            self.wf(),
            self.encoder.image_fits(image@, height as int, width as int),
        ensures
            r@ == self.patch_embeddings::<M>(image@, height as nat, width as nat),
            r@.len() == self.config.encoder.spec_num_patches()
                * self.config.encoder.hidden_size,
    {
        let enc_dim = self.config.encoder.hidden_size;
        let seq_len = self.encoder.config.seq_len();
        let patches = self.encoder.embed_patches(image, height, width);
        let x = self.encoder.encode_rows::<M>(patches.as_slice());
        let normed = apply_norm::<T, M>(
            x.as_slice(),
            self.encoder.final_norm_weight.as_slice(),
            self.encoder.final_norm,
            enc_dim,
            seq_len,
        );
        proof {
            ops::lemma_row_bounds(0, seq_len as int, enc_dim as int);
            let n = self.config.encoder.spec_num_patches();
            let e = enc_dim as int;
            assert((n + 1) * e == n * e + e) by (nonlinear_arith);
        }
        let len = normed.len();
        let rest = slice_subrange(normed.as_slice(), enc_dim, len);
        assert(rest@ =~= normed@.skip(enc_dim as int));
        copy_slice(rest)
    }

    /// Forward pass: encode image, then predict target embeddings from context patches.
    ///
    /// `image`: flat `[H * W * C]` pixel data.
    /// `context_mask`: `[num_patches]` — `true` for context patches.
    /// `target_mask`: `[num_patches]` — `true` for target patches.
    ///
    /// Returns context and predicted target embeddings.
    pub fn forward<M: Math<T>>(
        &self,
        image: &[T],
        h: usize,
        w: usize,
        context_mask: &[bool],
        target_mask: &[bool],
    ) -> (r: JEPAOutput<T>)
        requires
            scalar::mathematics::<T, M>(),
            self.wf(),
            self.config.encoder.hidden_size > 0,
            self.encoder.image_fits(image@, h as int, w as int),
            2 * self.config.encoder.spec_num_patches() <= usize::MAX,
            self.config.encoder.spec_num_patches() * self.config.predictor_hidden_size
                <= usize::MAX,
        ensures
            r.context_embeddings@ == self.context_of::<M>(
                image@,
                h as nat,
                w as nat,
                context_mask@,
            ),
            ({
                let n = self.config.encoder.spec_num_patches() as nat;
                r.predicted_embeddings@ == self.predicted_of::<M>(
                    r.context_embeddings@,
                    count_set(context_mask@, n),
                    count_set(target_mask@, n),
                )
            }),
            r.context_embeddings@.len() == count_set(
                context_mask@,
                self.config.encoder.spec_num_patches() as nat,
            ) * self.config.encoder.hidden_size,
            r.predicted_embeddings@.len() == count_set(
                target_mask@,
                self.config.encoder.spec_num_patches() as nat,
            ) * self.config.encoder.hidden_size,
    {
        let enc_dim = self.config.encoder.hidden_size;
        let pred_dim = self.config.predictor_hidden_size;
        let all = self.encode_patches::<M>(image, h, w);
        let num_patches = self.encoder.config.num_patches();
        let mut context: Vec<T> = Vec::new();
        let mut num_context: usize = 0;
        let mut num_target: usize = 0;
        for i in 0..num_patches
            invariant
                all@.len() == num_patches * enc_dim,
                num_context <= i,
                num_target <= i,
                num_context == count_set(context_mask@, i as nat),
                num_target == count_set(target_mask@, i as nat),
                context@ == rows_set(all@, context_mask@, i as nat, enc_dim as int),
                context@.len() == num_context * enc_dim,
        {
            proof {
                ops::lemma_row_bounds(i as int, num_patches as int, enc_dim as int);
                let n = num_context as int;
                let e = enc_dim as int;
                assert((n + 1) * e == n * e + e) by (nonlinear_arith);
            }
            if i < context_mask.len() && context_mask[i] {
                extend(&mut context, row_slice(all.as_slice(), i, enc_dim));
                num_context += 1;
            } else {
                assert(context@ + Seq::<T>::empty() =~= context@);
            }
            if i < target_mask.len() && target_mask[i] {
                num_target += 1;
            }
        }
        let mut x = project_rows(
            context.as_slice(),
            &self.predictor_embed_proj,
            num_context,
            enc_dim,
            pred_dim,
        );
        proof {
            let t = num_target as int;
            let n = num_patches as int;
            let p = pred_dim as int;
            let c = num_context as int;
            assert(t * p <= n * p) by (nonlinear_arith)
                requires
                    t <= n,
                    0 <= p,
            ;
            assert((c + t) * p == c * p + t * p) by (nonlinear_arith);
            assert(0 <= c * p) by (nonlinear_arith)
                requires
                    0 <= c,
                    0 <= p,
            ;
        }
        // Target positions are zero.
        let queries = filled(T::default(), num_target * pred_dim);
        extend(&mut x, queries.as_slice());
        let total = num_context + num_target;
        let x = run_layers::<T, M>(&self.predictor_layers, x, total, pred_dim);
        let normed = apply_norm::<T, M>(
            x.as_slice(),
            self.predictor_norm_weight.as_slice(),
            self.predictor_norm,
            pred_dim,
            total,
        );
        let len = normed.len();
        let targets = slice_subrange(normed.as_slice(), num_context * pred_dim, len);
        assert(targets@ =~= normed@.skip((num_context * pred_dim) as int));
        let predicted = project_rows(
            targets,
            &self.predictor_output_proj,
            num_target,
            pred_dim,
            enc_dim,
        );
        JEPAOutput { context_embeddings: context, predicted_embeddings: predicted }
    }
}

// ── Laws ─────────────────────────────────────────────────────────────

/// Where every flag is set, all rows are taken.
proof fn lemma_all_rows_set<T>(x: Seq<T>, all: Seq<bool>, n: nat, w: nat)
    requires
        n <= all.len(),
        forall|i: int| 0 <= i < n ==> #[trigger] all[i],
        n * w <= x.len(),
    ensures
        rows_set(x, all, n, w as int) == x.take((n * w) as int),
    decreases n,
{
    if n == 0 {
        assert(0 * w == 0) by (nonlinear_arith);
        assert(x.take(0) =~= Seq::empty());
    } else {
        ops::lemma_row_bounds(n - 1, n as int, w as int);
        lemma_all_rows_set(x, all, (n - 1) as nat, w);
        assert(all[n - 1]);
        assert(x.take((n * w) as int) =~= x.take(((n - 1) * w) as int) + ops::row(
            x,
            n - 1,
            w as int,
        ));
    }
}

/// The rows that a mask takes depend on nothing behind them.
proof fn lemma_rows_set_prefix<T>(x: Seq<T>, mask: Seq<bool>, m: nat, n: nat, w: nat)
    requires
        m <= n,
        n * w <= x.len(),
    ensures
        rows_set(x.take((n * w) as int), mask, m, w as int) == rows_set(x, mask, m, w as int),
    decreases m,
{
    if m > 0 {
        lemma_rows_set_prefix(x, mask, (m - 1) as nat, n, w);
        ops::lemma_row_bounds(m - 1, n as int, w as int);
        assert(ops::row(x.take((n * w) as int), m - 1, w as int) =~= ops::row(
            x,
            m - 1,
            w as int,
        ));
    }
}

/// Taking rows by a mask from all rows is taking them at once.
pub proof fn lemma_masked_of_all<T>(
    x: Seq<T>,
    all: Seq<bool>,
    mask: Seq<bool>,
    n: nat,
    w: nat,
)
    requires
        n <= all.len(),
        forall|i: int| 0 <= i < n ==> #[trigger] all[i],
        n * w <= x.len(),
    ensures
        rows_set(rows_set(x, all, n, w as int), mask, n, w as int) == rows_set(
            x,
            mask,
            n,
            w as int,
        ),
{
    lemma_all_rows_set(x, all, n, w);
    lemma_rows_set_prefix(x, mask, n, n, w);
}

proof fn lemma_encoded_len<T: Scalar, M: Math<T>>(
    layers: Seq<EncoderLayer<T>>,
    x: Seq<T>,
    rows: nat,
    h: nat,
    n: nat,
)
    requires
        vit::stack_wf(layers, h),
        x.len() == rows * h,
        n <= layers.len(),
    ensures
        vit::encoded::<T, M>(layers, x, rows, n).len() == rows * h,
    decreases n,
{
    if n > 0 {
        lemma_encoded_len::<T, M>(layers, x, rows, h, (n - 1) as nat);
        layers[n - 1].lemma_forward_len::<M>(
            vit::encoded::<T, M>(layers, x, rows, (n - 1) as nat),
            rows,
        );
    }
}

impl<T: Scalar> JEPAModel<T> {
    proof fn lemma_patch_embeddings_len<M: Math<T>>(&self, image: Seq<T>, h: nat, w: nat)
        requires
            self.wf(),
            self.encoder.image_fits(image, h as int, w as int),
        ensures
            self.patch_embeddings::<M>(image, h, w).len() == self.config.encoder.spec_num_patches()
                * self.config.encoder.hidden_size,
    {
        let c = self.encoder.config;
        let e = c.hidden_size as nat;
        let n = c.spec_num_patches();
        let rows = (n + 1) as nat;
        patch::lemma_patch_embeddings_len(
            image,
            h,
            w,
            c.channels as nat,
            c.patch_size as nat,
            self.encoder.patch_proj@,
            e,
        );
        let patches = self.encoder.patch_rows(image, h, w);
        assert(patches.len() == n * e);
        assert((n + 1) * e == n * e + e) by (nonlinear_arith);
        let x = self.encoder.token_rows(patches);
        assert(x.len() == rows * e);
        let layers = self.encoder.layers@;
        lemma_encoded_len::<T, M>(layers, x, rows, e, layers.len());
        let y = self.encoder.encoded_rows::<M>(patches);
        let f = |i: int|
            norm::normed_row::<T, M>(
                self.encoder.final_norm,
                ops::row(y, i, e as int),
                self.encoder.final_norm_weight@,
            );
        assert forall|i: int| 0 <= i < rows implies #[trigger] f(i).len() == e by {
            ops::lemma_row_bounds(i, rows as int, e as int);
        }
        ops::lemma_blocks_len(rows, f, e);
        assert(norm::normed::<T, M>(
            self.encoder.final_norm,
            y,
            self.encoder.final_norm_weight@,
            e,
            rows,
        ) == ops::blocks(rows, f));
    }

    /// The context embeddings are, in the order of the patches, the rows with a
    /// set flag of what a context of all patches gives.
    pub proof fn lemma_context_of_all<M: Math<T>>(
        &self,
        image: Seq<T>,
        h: nat,
        w: nat,
        all: Seq<bool>,
        context_mask: Seq<bool>,
    )
        requires
            self.wf(),
            self.encoder.image_fits(image, h as int, w as int),
            self.config.encoder.spec_num_patches() <= all.len(),
            forall|i: int|
                0 <= i < self.config.encoder.spec_num_patches() ==> #[trigger] all[i],
        ensures
            self.context_of::<M>(image, h, w, context_mask) == rows_set(
                self.context_of::<M>(image, h, w, all),
                context_mask,
                self.config.encoder.spec_num_patches() as nat,
                self.config.encoder.hidden_size as int,
            ),
    {
        let n = self.config.encoder.spec_num_patches();
        assert(0 <= n);
        self.lemma_patch_embeddings_len::<M>(image, h, w);
        lemma_masked_of_all(
            self.patch_embeddings::<M>(image, h, w),
            all,
            context_mask,
            n as nat,
            self.config.encoder.hidden_size as nat,
        );
    }
}

} // verus!
