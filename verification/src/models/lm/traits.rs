//! What generation asks of a model.

use vstd::prelude::*;

use crate::config::ModelConfig;
use crate::kv_cache::KVCache;
use crate::models::lm::causal_lm::{CausalLM, ModelOutput};
use crate::ops;
use crate::scalar;
use crate::scalar::{Math, Scalar};

verus! {

/// Trait for models that can run forward passes for inference.
///
/// It allows a generation pipeline to be generic over the model.
pub trait Model<T: Scalar, M: Math<T>> {
    /// Whether the model can run over `tokens` without a cache.
    spec fn can_forward(&self, tokens: Seq<u32>) -> bool;

    /// Whether the model can run over the prompt `tokens` and fill `cache`.
    spec fn can_prefill(&self, tokens: Seq<u32>, cache: KVCache<T>) -> bool;

    /// Whether the model can decode one more token on `cache`.
    spec fn can_decode(&self, cache: KVCache<T>) -> bool;

    /// The outcome of a full pass.
    spec fn is_forward(&self, tokens: Seq<u32>, out: ModelOutput<T>) -> bool;

    /// The outcome of a prefill.
    spec fn is_prefill(
        &self,
        tokens: Seq<u32>,
        before: KVCache<T>,
        after: KVCache<T>,
        out: ModelOutput<T>,
    ) -> bool;

    /// The outcome of a decode step.
    spec fn is_decode(
        &self,
        token: u32,
        before: KVCache<T>,
        after: KVCache<T>,
        out: ModelOutput<T>,
    ) -> bool;

    /// The outcome of a draft step through the first `n` layers.
    spec fn is_draft(
        &self,
        token: u32,
        n: usize,
        before: KVCache<T>,
        after: KVCache<T>,
        out: ModelOutput<T>,
    ) -> bool;

    /// Full forward pass (no cache, recomputes everything).
    fn forward(&self, token_ids: &[u32]) -> (r: ModelOutput<T>)
        requires
            scalar::mathematics::<T, M>(),
            self.can_forward(token_ids@),
        ensures
            self.is_forward(token_ids@, r),
    ;

    /// Prefill: process all prompt tokens, populate KV cache, return last logits.
    fn forward_prefill(&self, token_ids: &[u32], cache: &mut KVCache<T>) -> (r: ModelOutput<T>)
        requires
            scalar::mathematics::<T, M>(),
            self.can_prefill(token_ids@, *old(cache)),
        ensures
            self.is_prefill(token_ids@, *old(cache), *final(cache), r),
    ;

    /// Single-token decode using KV cache.
    fn forward_one(&self, token: u32, cache: &mut KVCache<T>) -> (r: ModelOutput<T>)
        requires
            scalar::mathematics::<T, M>(),
            self.can_decode(*old(cache)),
        ensures
            self.is_decode(token, *old(cache), *final(cache), r),
    ;

    /// Draft forward with fewer layers (for speculative decoding). A model
    /// without a shorter pass runs `forward_one`.
    fn forward_one_draft(&self, token: u32, cache: &mut KVCache<T>, n_layers: usize) -> (r:
        ModelOutput<T>)
        requires
            scalar::mathematics::<T, M>(),
            self.can_decode(*old(cache)),
        ensures
            self.is_draft(token, n_layers, *old(cache), *final(cache), r),
    ;

    /// Number of decoder layers.
    fn num_layers(&self) -> (r: usize);

    /// Model configuration.
    fn config(&self) -> (r: &ModelConfig);
}

impl<T: Scalar, M: Math<T>> Model<T, M> for CausalLM<T> {
    open spec fn can_forward(&self, tokens: Seq<u32>) -> bool {
        self.wf() && self.positions_reach(tokens.len() as int)
    }

    open spec fn can_prefill(&self, tokens: Seq<u32>, cache: KVCache<T>) -> bool {
        &&& self.wf()
        &&& tokens.len() > 0
        &&& self.positions_reach(tokens.len() as int)
        &&& self.cache_fits(cache)
        &&& self.cache_room(cache, tokens.len() as int)
    }

    open spec fn can_decode(&self, cache: KVCache<T>) -> bool {
        &&& self.wf()
        &&& self.cache_fits(cache)
        &&& self.cache_room(cache, 1)
        &&& self.positions_reach(self.next_position(cache) + 1)
    }

    open spec fn is_forward(&self, tokens: Seq<u32>, out: ModelOutput<T>) -> bool {
        &&& out.logits@ == self.logits_of::<M>(tokens)
        &&& out.shape@ == seq![
            1usize,
            tokens.len() as usize,
            self.config.architecture.vocab_size,
        ]
    }

    open spec fn is_prefill(
        &self,
        tokens: Seq<u32>,
        before: KVCache<T>,
        after: KVCache<T>,
        out: ModelOutput<T>,
    ) -> bool {
        &&& out.logits@ == self.logits_row::<M>(
            ops::row(
                self.final_hidden::<M>(tokens),
                tokens.len() - 1,
                self.config.architecture.hidden_size as int,
            ),
        )
        &&& out.shape@ == seq![1usize, 1usize, self.config.architecture.vocab_size]
        &&& self.cache_fits(after)
        &&& forall|i: int|
            0 <= i < self.layers@.len() ==> self.layer_prefilled::<M>(
                i,
                #[trigger] before.layers@[i],
                after.layers@[i],
                tokens,
            )
    }

    open spec fn is_decode(
        &self,
        token: u32,
        before: KVCache<T>,
        after: KVCache<T>,
        out: ModelOutput<T>,
    ) -> bool {
        let pos = self.next_position(before);
        &&& out.logits@ == self.logits_row::<M>(
            self.decoded::<M>(
                self.embed_row::<M>(token),
                before.layers@,
                pos,
                self.layers@.len(),
            ),
        )
        &&& out.shape@ == seq![1usize, 1usize, self.config.architecture.vocab_size]
        &&& self.cache_fits(after)
        &&& forall|i: int|
            0 <= i < self.layers@.len() ==> self.layer_decoded::<M>(
                i,
                before.layers@,
                #[trigger] after.layers@[i],
                self.embed_row::<M>(token),
                pos,
            )
    }

    open spec fn is_draft(
        &self,
        token: u32,
        n: usize,
        before: KVCache<T>,
        after: KVCache<T>,
        out: ModelOutput<T>,
    ) -> bool {
        let depth = if n <= self.layers@.len() {
            n as int
        } else {
            self.layers@.len() as int
        };
        let pos = self.next_position(before);
        &&& out.logits@ == self.logits_row::<M>(
            self.decoded::<M>(self.token_row(token), before.layers@, pos, depth as nat),
        )
        &&& out.shape@ == seq![1usize, 1usize, self.config.architecture.vocab_size]
        &&& self.cache_fits(after)
        &&& forall|i: int|
            0 <= i < depth ==> self.layer_decoded::<M>(
                i,
                before.layers@,
                #[trigger] after.layers@[i],
                self.token_row(token),
                pos,
            )
        &&& forall|i: int|
            depth <= i < self.layers@.len() ==> self.layer_padded(
                #[trigger] before.layers@[i],
                after.layers@[i],
            )
    }

    fn forward(&self, token_ids: &[u32]) -> (r: ModelOutput<T>) {
        CausalLM::forward::<M>(self, token_ids)
    }

    fn forward_prefill(&self, token_ids: &[u32], cache: &mut KVCache<T>) -> (r: ModelOutput<T>) {
        CausalLM::forward_prefill::<M>(self, token_ids, cache)
    }

    fn forward_one(&self, token: u32, cache: &mut KVCache<T>) -> (r: ModelOutput<T>) {
        CausalLM::forward_one::<M>(self, token, cache)
    }

    fn forward_one_draft(&self, token: u32, cache: &mut KVCache<T>, n_layers: usize) -> (r:
        ModelOutput<T>) {
        CausalLM::forward_one_draft::<M>(self, token, cache, n_layers)
    }

    fn num_layers(&self) -> (r: usize)
        ensures
            r == self.layers@.len(),
    {
        CausalLM::num_layers(self)
    }

    fn config(&self) -> (r: &ModelConfig)
        ensures
            *r == self.config,
    {
        CausalLM::config(self)
    }
}

} // verus!
