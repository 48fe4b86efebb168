//! Code world model encoding with the encoder's loops in one fused kernel. The
//! embedding and the final norm stay outside of it.

use vstd::prelude::*;

use crate::models::vision::code_wm;
use crate::models::vision::code_wm::{CodeWorldModel, TransformerBlock};
use crate::scalar;
use crate::scalar::{Math, Scalar};

verus! {

/// The dimensions that a fused encoder kernel is told.
#[derive(Debug, Clone, Copy, PartialEq, Eq, Structural)]
pub struct EncoderShape {
    /// Rows of the sequence, the CLS row among them.
    pub rows: usize,
    pub model_dim: usize,
    pub num_heads: usize,
    pub mlp_hidden: usize,
    /// Passes through the block.
    pub loops: usize,
}

/// A kernel that runs all loops of the encoder block.
pub trait EncoderKernel<T> {
    /// The rows of `seq` after the loops.
    fn run(&self, seq: &[T], shape: EncoderShape, block: &TransformerBlock<T>) -> Vec<T>;
}

/// Running the loops in a kernel can give `y`.
pub open spec fn runs_to<T, K: EncoderKernel<T>>(
    kernel: K,
    seq: Seq<T>,
    shape: EncoderShape,
    block: TransformerBlock<T>,
    y: Seq<T>,
) -> bool {
    exists|s: &[T], v: Vec<T>|
        s@ == seq && v@ == y && #[trigger] call_ensures(K::run, (&kernel, s, shape, &block), v)
}

/// The rows that a kernel computes.
pub open spec fn run_in<T, K: EncoderKernel<T>>(
    kernel: K,
    seq: Seq<T>,
    shape: EncoderShape,
    block: TransformerBlock<T>,
) -> Seq<T> {
    choose|y: Seq<T>| runs_to(kernel, seq, shape, block, y)
}

/// A kernel's result is a function of what it is given, and has as many
/// elements as the sequence.
pub open spec fn encoding<T, K: EncoderKernel<T>>() -> bool {
    &&& forall|
        kernel: &K,
        s: &[T],
        shape: EncoderShape,
        block: &TransformerBlock<T>,
        v: Vec<T>,
    | #[trigger]
        call_ensures(K::run, (kernel, s, shape, block), v) ==> v@ == run_in(
            *kernel,
            s@,
            shape,
            *block,
        )
    &&& forall|kernel: K, s: Seq<T>, shape: EncoderShape, block: TransformerBlock<T>|
        (#[trigger] run_in(kernel, s, shape, block)).len() == s.len()
}

impl<T: Scalar> CodeWorldModel<T> {
    /// What the kernel is told about a sequence of `n` tokens.
    pub open spec fn shape_for(&self, n: nat) -> EncoderShape {
        EncoderShape {
            rows: (n + 1) as usize,
            model_dim: self.config.model_dim,
            num_heads: self.config.num_heads,
            mlp_hidden: self.config.mlp_hidden,
            loops: self.config.encoder_loops,
        }
    }

    /// The latent of a sequence of tokens, encoded in a kernel.
    pub open spec fn latent_in<M: Math<T>, K: EncoderKernel<T>>(
        &self,
        kernel: K,
        tokens: Seq<i64>,
    ) -> Seq<T> {
        self.encoder_final_norm.output::<M>(
            run_in(
                kernel,
                self.placed(tokens),
                self.shape_for(tokens.len()),
                self.encoder_block,
            ).take(self.config.model_dim as int),
            1,
        )
    }

    /// Encode tokens via a fused kernel. There must be a position for each
    /// token.
    pub fn encode_fused<M: Math<T>, K: EncoderKernel<T>>(
        &self,
        tokens: &[i64],
        kernel: &K,
    ) -> (r: Vec<T>)
        requires
            scalar::mathematics::<T, M>(),
            encoding::<T, K>(),
            self.encoder_wf(),
            tokens@.len() <= self.config.max_seq_len,
            self.known(tokens@),
        ensures
            r@ == self.latent_in::<M, K>(*kernel, tokens@),
            r@.len() == self.config.model_dim,
    {
        // 1. Build initial seq: CLS, embedding rows, + PE.
        let seq = self.place_tokens(tokens);
        // 2. Run the loops in the kernel.
        let shape = EncoderShape {
            rows: tokens.len() + 1,
            model_dim: self.config.model_dim,
            num_heads: self.config.num_heads,
            mlp_hidden: self.config.mlp_hidden,
            loops: self.config.encoder_loops,
        };
        let rows = kernel.run(seq.as_slice(), shape, &self.encoder_block);
        // 3. Extract CLS token and apply final LayerNorm.
        self.read_latent::<M>(rows.as_slice())
    }

    /// A kernel that runs the loops as the host does gives the latent of
    /// [`encode`](Self::encode).
    pub proof fn lemma_fused_agrees<M: Math<T>, K: EncoderKernel<T>>(
        &self,
        kernel: K,
        tokens: Seq<i64>,
    )
        requires
            tokens.len() <= self.config.max_seq_len,
            forall|s: Seq<T>|
                #[trigger] run_in(kernel, s, self.shape_for(tokens.len()), self.encoder_block)
                    == code_wm::looped::<T, M>(
                    self.encoder_block,
                    s,
                    tokens.len() + 1,
                    self.config,
                    self.config.encoder_loops as nat,
                ),
        ensures
            self.latent_in::<M, K>(kernel, tokens) == self.latent::<M>(tokens),
    {
    }
}

} // verus!
