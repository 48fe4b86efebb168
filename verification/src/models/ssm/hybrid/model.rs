//! HybridModel: a language model with an arbitrary mix of DeltaNet, GQA, and
//! LIV Conv layers in any interleaving pattern. Each layer type manages its
//! own state variant.

use vstd::prelude::*;

use crate::buffer;
use crate::buffer::{copy_slice, extend, filled};
use crate::config::{
    ArchitectureConfig, AttentionConfig, FFNConfig, ModelConfig, NormConfig, PositionConfig,
    RoPEScaling, RoPEStyle,
};
use crate::models::lm::causal_lm::ModelOutput;
use crate::models::ssm::deltanet_state;
use crate::models::ssm::deltanet_state::{DeltaNetLayerState, DeltaNetView};
use crate::models::ssm::hybrid::config::{HybridConfig, LayerKind};
use crate::models::ssm::hybrid::deltanet_layer::DeltaNetDecoderLayer;
use crate::models::ssm::hybrid::gqa_layer;
use crate::models::ssm::hybrid::gqa_layer::{GqaDecoderLayer, KvLayerState, KvView, RopeTables};
use crate::models::ssm::hybrid::livconv_layer::{ConvLayerState, LivConvDecoderLayer};
use crate::ops;
use crate::ops::{linear_vec, rms_normalize, row_slice};
use crate::packed;
use crate::packed::PackedLinear;
use crate::scalar;
use crate::scalar::{Math, Scalar};

verus! {

/// A layer in the hybrid model.
pub enum HybridLayer<T, Q> {
    DeltaNet(DeltaNetDecoderLayer<T>),
    Gqa(GqaDecoderLayer<T, Q>),
    LivConv(LivConvDecoderLayer<T, Q>),
}

/// Per-layer state variant, matching the layer type.
pub enum LayerState<T> {
    DeltaNet(DeltaNetLayerState<T>),
    Kv(KvLayerState<T>),
    Conv(ConvLayerState<T>),
}

/// What a layer remembers.
#[verifier::ext_equal]
pub enum LayerView<T> {
    DeltaNet(DeltaNetView<T>),
    Kv(KvView<T>),
    Conv(Seq<T>),
}

impl<T> View for LayerState<T> {
    type V = LayerView<T>;

    open spec fn view(&self) -> LayerView<T> {
        match self {
            LayerState::DeltaNet(s) => LayerView::DeltaNet(s@),
            LayerState::Kv(s) => LayerView::Kv(s@),
            LayerState::Conv(s) => LayerView::Conv(s@),
        }
    }
}

impl<T> LayerState<T> {
    /// How many elements the state's buffers hold.
    pub open spec fn elements(&self) -> nat {
        match self {
            LayerState::DeltaNet(s) => s.elements(),
            LayerState::Kv(s) => s.k_cache@.len() + s.v_cache@.len(),
            LayerState::Conv(s) => s@.len(),
        }
    }

    /// The buffers' lengths and all dimensions, but for how many tokens are
    /// cached.
    pub open spec fn same_room(&self, other: Self) -> bool {
        match (self, other) {
            (LayerState::DeltaNet(a), LayerState::DeltaNet(b)) => {
                &&& a.num_heads == b.num_heads
                &&& a.head_dim == b.head_dim
                &&& a.conv_kernel == b.conv_kernel
                &&& a.memory@.len() == b.memory@.len()
                &&& a.q_conv_state@.len() == b.q_conv_state@.len()
                &&& a.k_conv_state@.len() == b.k_conv_state@.len()
                &&& a.v_conv_state@.len() == b.v_conv_state@.len()
            },
            (LayerState::Kv(a), LayerState::Kv(b)) => a.same_room(b),
            (LayerState::Conv(a), LayerState::Conv(b)) => {
                &&& a.inner_size == b.inner_size
                &&& a.kernel_size == b.kernel_size
                &&& a@.len() == b@.len()
            },
            _ => false,
        }
    }

    /// The buffers have the lengths that the dimensions ask for.
    pub open spec fn wf(&self) -> bool {
        match self {
            LayerState::DeltaNet(s) => s.wf(),
            LayerState::Kv(s) => s.wf(),
            LayerState::Conv(s) => s.wf(),
        }
    }

    /// `n` more tokens can be cached.
    pub open spec fn has_room(&self, n: nat) -> bool {
        self matches LayerState::Kv(s) ==> s.len + n <= s.max_seq
    }

    /// A KV cache holds `n` tokens.
    pub open spec fn in_step(&self, n: nat) -> bool {
        self matches LayerState::Kv(s) ==> s.len == n
    }
}

/// The state of a layer of a kind that has seen nothing.
pub open spec fn blank_state<T: Scalar>(config: HybridConfig, kind: LayerKind) -> LayerView<T> {
    match kind {
        LayerKind::DeltaNet => LayerView::DeltaNet(
            deltanet_state::blank_deltanet::<T>(
                config.deltanet_num_heads as nat,
                config.deltanet_head_dim as nat,
                config.deltanet_conv_kernel as nat,
            ),
        ),
        LayerKind::Gqa => LayerView::Kv(gqa_layer::blank_cache::<T>()),
        LayerKind::LivConv => LayerView::Conv(
            buffer::repeated(
                scalar::zero::<T>(),
                (config.livconv_inner_size * config.livconv_kernel_size) as nat,
            ),
        ),
    }
}

/// The state of a layer has the dimensions of the configuration.
pub open spec fn state_fits<T>(
    state: LayerState<T>,
    config: HybridConfig,
    kind: LayerKind,
    max_seq: usize,
) -> bool {
    &&& state.wf()
    &&& match (kind, state) {
        (LayerKind::DeltaNet, LayerState::DeltaNet(s)) => {
            &&& s.num_heads == config.deltanet_num_heads
            &&& s.head_dim == config.deltanet_head_dim
            &&& s.conv_kernel == config.deltanet_conv_kernel
        },
        (LayerKind::Gqa, LayerState::Kv(s)) => {
            &&& s.kv_dim == config.num_kv_heads * config.gqa_head_dim
            &&& s.max_seq == max_seq
        },
        (LayerKind::LivConv, LayerState::Conv(s)) => {
            &&& s.inner_size == config.livconv_inner_size
            &&& s.kernel_size == config.livconv_kernel_size
        },
        _ => false,
    }
}

/// The buffers of a layer of a kind have lengths that are machine integers.
pub open spec fn sizes_fit(config: HybridConfig, kind: LayerKind, max_seq: usize) -> bool {
    match kind {
        LayerKind::DeltaNet => {
            let inner = config.deltanet_num_heads * config.deltanet_head_dim;
            &&& inner <= usize::MAX
            &&& inner * config.deltanet_head_dim <= usize::MAX
            &&& inner * config.deltanet_conv_kernel <= usize::MAX
        },
        LayerKind::Gqa => {
            let kv_dim = config.num_kv_heads * config.gqa_head_dim;
            &&& kv_dim <= usize::MAX
            &&& max_seq * kv_dim <= usize::MAX
        },
        LayerKind::LivConv => config.livconv_inner_size * config.livconv_kernel_size <= usize::MAX,
    }
}

/// Combined state for all layers in the hybrid model.
pub struct HybridState<T> {
    /// One state entry per layer, matching the layer type.
    pub layer_states: Vec<LayerState<T>>,
    /// Current position (number of tokens processed so far).
    pub position: usize,
}

/// The elements of the first `n` states, or of those that `which` picks.
pub open spec fn total_elements<T>(
    states: Seq<LayerState<T>>,
    which: spec_fn(LayerState<T>) -> bool,
    n: nat,
) -> nat
    decreases n,
{
    if n == 0 {
        0
    } else {
        total_elements(states, which, (n - 1) as nat) + if which(states[n - 1]) {
            states[n - 1].elements()
        } else {
            0
        }
    }
}

/// All states.
pub open spec fn any_state<T>() -> spec_fn(LayerState<T>) -> bool {
    |s: LayerState<T>| true
}

/// The states of DeltaNet layers.
pub open spec fn deltanet_states<T>() -> spec_fn(LayerState<T>) -> bool {
    |s: LayerState<T>| s is DeltaNet
}

/// The KV caches.
pub open spec fn kv_states<T>() -> spec_fn(LayerState<T>) -> bool {
    |s: LayerState<T>| s is Kv
}

proof fn lemma_total_grows<T>(
    states: Seq<LayerState<T>>,
    which: spec_fn(LayerState<T>) -> bool,
    m: nat,
    n: nat,
)
    requires
        m <= n,
    ensures
        total_elements(states, which, m) <= total_elements(states, which, n),
    decreases n,
{
    if m < n {
        lemma_total_grows(states, which, m, (n - 1) as nat);
    }
}

impl<T> HybridState<T> {
    /// The elements of all states that `which` picks.
    pub open spec fn total(&self, which: spec_fn(LayerState<T>) -> bool) -> nat {
        total_elements(self.layer_states@, which, self.layer_states@.len())
    }
}

impl<T: Scalar> HybridState<T> {
    pub fn new(config: &HybridConfig, max_kv_seq: usize) -> (r: Self)
        requires
            scalar::arithmetic::<T>(),
            config.wf(),
            forall|i: int|
                0 <= i < config.num_layers ==> sizes_fit(
                    *config,
                    #[trigger] config.kind(i),
                    max_kv_seq,
                ),
        ensures
            r.position == 0,
            r.layer_states@.len() == config.num_layers,
            forall|i: int|
                0 <= i < r.layer_states@.len() ==> (#[trigger] r.layer_states@[i])@ == blank_state::<
                    T,
                >(*config, config.kind(i)),
            forall|i: int|
                0 <= i < r.layer_states@.len() ==> state_fits(
                    #[trigger] r.layer_states@[i],
                    *config,
                    config.kind(i),
                    max_kv_seq,
                ),
    {
        let mut layer_states: Vec<LayerState<T>> = Vec::with_capacity(config.num_layers);
        for n in 0..config.num_layers
            invariant
                scalar::arithmetic::<T>(),
                config.wf(),
                forall|i: int|
                    0 <= i < config.num_layers ==> sizes_fit(
                        *config,
                        #[trigger] config.kind(i),
                        max_kv_seq,
                    ),
                layer_states@.len() == n,
                forall|i: int|
                    0 <= i < n ==> (#[trigger] layer_states@[i])@ == blank_state::<T>(
                        *config,
                        config.kind(i),
                    ),
                forall|i: int|
                    0 <= i < n ==> state_fits(
                        #[trigger] layer_states@[i],
                        *config,
                        config.kind(i),
                        max_kv_seq,
                    ),
        {
            let kind = config.layer_kind(n);
            assert(sizes_fit(*config, config.kind(n as int), max_kv_seq));
            let state = match kind {
                LayerKind::DeltaNet => LayerState::DeltaNet(
                    DeltaNetLayerState::new(
                        config.deltanet_num_heads,
                        config.deltanet_head_dim,
                        config.deltanet_conv_kernel,
                    ),
                ),
                LayerKind::Gqa => LayerState::Kv(
                    KvLayerState::new(max_kv_seq, config.num_kv_heads, config.gqa_head_dim),
                ),
                LayerKind::LivConv => LayerState::Conv(
                    ConvLayerState::new(config.livconv_inner_size, config.livconv_kernel_size),
                ),
            };
            layer_states.push(state);
        }
        HybridState { layer_states, position: 0 }
    }

    /// Forgets everything.
    pub fn reset(&mut self)
        requires
            scalar::arithmetic::<T>(),
            forall|i: int|
                0 <= i < old(self).layer_states@.len() ==> (
                #[trigger] old(self).layer_states@[i]).wf(),
        ensures
            final(self).position == 0,
            final(self).layer_states@.len() == old(self).layer_states@.len(),
            forall|i: int|
                0 <= i < final(self).layer_states@.len() ==> cleared(
                    old(self).layer_states@[i],
                    #[trigger] final(self).layer_states@[i],
                ),
    {
        let ghost start = self.layer_states@;
        let count = self.layer_states.len();
        for n in 0..count
            invariant
                scalar::arithmetic::<T>(),
                count == start.len(),
                self.layer_states@.len() == start.len(),
                forall|i: int| 0 <= i < start.len() ==> (#[trigger] start[i]).wf(),
                forall|i: int|
                    0 <= i < n ==> cleared(start[i], #[trigger] self.layer_states@[i]),
                forall|i: int|
                    n <= i < start.len() ==> #[trigger] self.layer_states@[i] == start[i],
        {
            assert(self.layer_states@[n as int] == start[n as int]);
            match &mut self.layer_states[n] {
                LayerState::DeltaNet(s) => s.reset(),
                LayerState::Kv(s) => s.reset(),
                LayerState::Conv(s) => s.reset(),
            }
            assert(cleared(start[n as int], self.layer_states@[n as int]));
        }
        self.position = 0;
    }

    /// The elements that the states of some kinds hold.
    fn count_elements(&self, deltanet: bool, kv: bool, conv: bool) -> (r: usize)
        requires
            self.total(picked(deltanet, kv, conv)) <= usize::MAX,
        ensures
            r == self.total(picked(deltanet, kv, conv)),
    {
        let ghost which = picked::<T>(deltanet, kv, conv);
        let mut sum: usize = 0;
        for i in 0..self.layer_states.len()
            invariant
                which == picked::<T>(deltanet, kv, conv),
                self.total(which) <= usize::MAX,
                sum == total_elements(self.layer_states@, which, i as nat),
        {
            proof {
                lemma_total_grows(
                    self.layer_states@,
                    which,
                    (i + 1) as nat,
                    self.layer_states@.len(),
                );
            }
            let n = match &self.layer_states[i] {
                LayerState::DeltaNet(s) => if deltanet {
                    s.memory.len() + s.q_conv_state.len() + s.k_conv_state.len()
                        + s.v_conv_state.len()
                } else {
                    0
                },
                LayerState::Kv(s) => if kv {
                    s.k_cache.len() + s.v_cache.len()
                } else {
                    0
                },
                LayerState::Conv(s) => if conv {
                    s.conv_state.len()
                } else {
                    0
                },
            };
            sum = sum + n;
        }
        sum
    }

    /// Total heap memory used by all state buffers (bytes).
    pub fn memory_bytes(&self) -> (r: usize)
        requires
            self.total(any_state()) <= usize::MAX,
            self.total(any_state()) * vstd::layout::size_of::<T>() <= usize::MAX,
        ensures
            r == self.total(any_state()) * vstd::layout::size_of::<T>(),
    {
        proof {
            lemma_same_picks(
                self.layer_states@,
                any_state(),
                picked(true, true, true),
                self.layer_states@.len(),
            );
        }
        self.count_elements(true, true, true) * core::mem::size_of::<T>()
    }

    /// Memory used by DeltaNet states only (bytes). This is constant.
    pub fn deltanet_memory_bytes(&self) -> (r: usize)
        requires
            self.total(deltanet_states()) <= usize::MAX,
            self.total(deltanet_states()) * vstd::layout::size_of::<T>() <= usize::MAX,
        ensures
            r == self.total(deltanet_states()) * vstd::layout::size_of::<T>(),
    {
        proof {
            lemma_same_picks(
                self.layer_states@,
                deltanet_states(),
                picked(true, false, false),
                self.layer_states@.len(),
            );
        }
        self.count_elements(true, false, false) * core::mem::size_of::<T>()
    }

    /// Memory used by KV caches only (bytes).
    pub fn kv_memory_bytes(&self) -> (r: usize)
        requires
            self.total(kv_states()) <= usize::MAX,
            self.total(kv_states()) * vstd::layout::size_of::<T>() <= usize::MAX,
        ensures
            r == self.total(kv_states()) * vstd::layout::size_of::<T>(),
    {
        proof {
            lemma_same_picks(
                self.layer_states@,
                kv_states(),
                picked(false, true, false),
                self.layer_states@.len(),
            );
        }
        self.count_elements(false, true, false) * core::mem::size_of::<T>()
    }
}

/// The states of the kinds that are asked for.
pub open spec fn picked<T>(deltanet: bool, kv: bool, conv: bool) -> spec_fn(LayerState<T>) -> bool {
    |s: LayerState<T>|
        match s {
            LayerState::DeltaNet(_) => deltanet,
            LayerState::Kv(_) => kv,
            LayerState::Conv(_) => conv,
        }
}

proof fn lemma_same_picks<T>(
    states: Seq<LayerState<T>>,
    a: spec_fn(LayerState<T>) -> bool,
    b: spec_fn(LayerState<T>) -> bool,
    n: nat,
)
    requires
        forall|s: LayerState<T>| #[trigger] a(s) == b(s),
    ensures
        total_elements(states, a, n) == total_elements(states, b, n),
    decreases n,
{
    if n > 0 {
        lemma_same_picks(states, a, b, (n - 1) as nat);
        assert(a(states[n - 1]) == b(states[n - 1]));
    }
}

/// `after` has the dimensions of `before` and remembers nothing.
pub open spec fn cleared<T: Scalar>(before: LayerState<T>, after: LayerState<T>) -> bool {
    &&& after.wf()
    &&& after.same_room(before)
    &&& match (before, after) {
        (LayerState::DeltaNet(b), LayerState::DeltaNet(a)) => a@
            == deltanet_state::blank_deltanet::<T>(
            b.num_heads as nat,
            b.head_dim as nat,
            b.conv_kernel as nat,
        ),
        (LayerState::Kv(_), LayerState::Kv(a)) => a@ == gqa_layer::blank_cache::<T>(),
        (LayerState::Conv(b), LayerState::Conv(a)) => a@ == buffer::repeated(
            scalar::zero::<T>(),
            (b.inner_size * b.kernel_size) as nat,
        ),
        _ => false,
    }
}

// ── Layers ───────────────────────────────────────────────────────────

impl<T: Scalar, Q: PackedLinear<T>> HybridLayer<T, Q> {
    /// The layer's weights have their sizes, for rows of `h` elements.
    pub open spec fn wf(&self, h: nat) -> bool {
        match self {
            HybridLayer::DeltaNet(l) => l.wf() && l.hidden_size == h,
            HybridLayer::Gqa(l) => l.wf() && l.hidden_size == h,
            HybridLayer::LivConv(l) => l.wf() && l.hidden_size == h,
        }
    }

    /// No weight has a packed form.
    pub open spec fn is_dense(&self) -> bool {
        match self {
            HybridLayer::DeltaNet(l) => true,
            HybridLayer::Gqa(l) => l.is_dense(),
            HybridLayer::LivConv(l) => l.is_dense(),
        }
    }

    /// A state of the layer's kind and dimensions.
    pub open spec fn matches(&self, state: LayerState<T>) -> bool {
        match (self, state) {
            (HybridLayer::DeltaNet(l), LayerState::DeltaNet(s)) => l.matches(s),
            (HybridLayer::Gqa(l), LayerState::Kv(s)) => l.matches(s),
            (HybridLayer::LivConv(l), LayerState::Conv(s)) => s.wf() && l.takes(s@),
            _ => false,
        }
    }

    /// The tables have rows for the first `n` positions.
    pub open spec fn covered(&self, tables: RopeTables<T>, n: nat) -> bool {
        self matches HybridLayer::Gqa(l) ==> tables.covers(n, l.head_dim as nat)
    }

    /// A state of the layer's kind and dimensions, seen from outside.
    pub open spec fn takes(&self, v: LayerView<T>) -> bool {
        match (self, v) {
            (HybridLayer::DeltaNet(l), LayerView::DeltaNet(s)) => l.takes(s),
            (HybridLayer::Gqa(l), LayerView::Kv(s)) => s.fits(l.kv_dim()),
            (HybridLayer::LivConv(l), LayerView::Conv(s)) => l.takes(s),
            _ => false,
        }
    }

    /// The state after a sequence that starts at position `pos`.
    pub open spec fn seq_state<M: Math<T>>(
        &self,
        v: LayerView<T>,
        x: Seq<T>,
        rows: nat,
        tables: RopeTables<T>,
        pos: int,
    ) -> LayerView<T> {
        match (self, v) {
            (HybridLayer::DeltaNet(l), LayerView::DeltaNet(s)) => LayerView::DeltaNet(
                l.state_after::<M>(s, x, rows),
            ),
            (HybridLayer::Gqa(l), LayerView::Kv(s)) => LayerView::Kv(
                l.state_after::<M>(s, x, rows, tables, pos),
            ),
            (HybridLayer::LivConv(l), LayerView::Conv(s)) => LayerView::Conv(
                l.state_after::<M>(s, x, rows),
            ),
            _ => v,
        }
    }

    /// A sequence that starts at position `pos` through the layer.
    pub open spec fn seq_output<M: Math<T>>(
        &self,
        v: LayerView<T>,
        x: Seq<T>,
        rows: nat,
        tables: RopeTables<T>,
        pos: int,
    ) -> Seq<T> {
        match (self, v) {
            (HybridLayer::DeltaNet(l), LayerView::DeltaNet(s)) => l.outputs::<M>(s, x, rows),
            (HybridLayer::Gqa(l), LayerView::Kv(s)) => l.outputs::<M>(s, x, rows, tables, pos),
            (HybridLayer::LivConv(l), LayerView::Conv(s)) => l.outputs::<M>(s, x, rows),
            _ => x,
        }
    }

    /// The state after a single row at position `pos`.
    pub open spec fn one_state<M: Math<T>>(
        &self,
        v: LayerView<T>,
        x: Seq<T>,
        tables: RopeTables<T>,
        pos: int,
    ) -> LayerView<T> {
        match (self, v) {
            (HybridLayer::DeltaNet(l), LayerView::DeltaNet(s)) => LayerView::DeltaNet(
                l.after::<M>(s, l.input::<M>(x)),
            ),
            (HybridLayer::Gqa(l), LayerView::Kv(s)) => LayerView::Kv(
                l.state_after_one::<M>(s, x, tables, pos),
            ),
            (HybridLayer::LivConv(l), LayerView::Conv(s)) => LayerView::Conv(
                l.after::<M>(s, l.projected_one::<M>(x)),
            ),
            _ => v,
        }
    }

    /// A single row at position `pos` through the layer.
    pub open spec fn one_output<M: Math<T>>(
        &self,
        v: LayerView<T>,
        x: Seq<T>,
        tables: RopeTables<T>,
        pos: int,
    ) -> Seq<T> {
        match (self, v) {
            (HybridLayer::DeltaNet(l), LayerView::DeltaNet(s)) => l.output::<M>(s, x),
            (HybridLayer::Gqa(l), LayerView::Kv(s)) => l.output_one::<M>(s, x, tables, pos),
            (HybridLayer::LivConv(l), LayerView::Conv(s)) => l.output_one::<M>(s, x),
            _ => x,
        }
    }

    /// Runs a sequence through the layer.
    fn run_seq<M: Math<T>>(
        &self,
        hidden: &[T],
        seq_len: usize,
        state: &mut LayerState<T>,
        rope_cos: &[T],
        rope_sin: &[T],
        pos: usize,
        Ghost(h): Ghost<nat>,
    ) -> (r: Vec<T>)
        requires
            scalar::mathematics::<T, M>(),
            self.wf(h),
            self.matches(*old(state)),
            old(state).has_room(seq_len as nat),
            hidden@.len() == seq_len * h,
            pos + seq_len <= usize::MAX,
            self.covered(gqa_layer::tables_of(rope_cos@, rope_sin@), (pos + seq_len) as nat),
        ensures
            self.matches(*final(state)),
            final(state).same_room(*old(state)),
            old(state).in_step(pos as nat) ==> final(state).in_step((pos + seq_len) as nat),
            final(state)@ == self.seq_state::<M>(
                old(state)@,
                hidden@,
                seq_len as nat,
                gqa_layer::tables_of(rope_cos@, rope_sin@),
                pos as int,
            ),
            r@ == self.seq_output::<M>(
                old(state)@,
                hidden@,
                seq_len as nat,
                gqa_layer::tables_of(rope_cos@, rope_sin@),
                pos as int,
            ),
            r@.len() == seq_len * h,
    {
        match (self, state) {
            (HybridLayer::DeltaNet(l), LayerState::DeltaNet(s)) => l.forward_seq::<M>(
                hidden,
                seq_len,
                s,
            ),
            (HybridLayer::Gqa(l), LayerState::Kv(s)) => l.forward_seq::<M>(
                hidden,
                seq_len,
                s,
                rope_cos,
                rope_sin,
                pos,
            ),
            (HybridLayer::LivConv(l), LayerState::Conv(s)) => l.forward_seq::<M>(
                hidden,
                seq_len,
                s,
            ),
            _ => copy_slice(hidden),
        }
    }

    /// Runs a single row through the layer.
    fn run_one<M: Math<T>>(
        &self,
        hidden: &[T],
        state: &mut LayerState<T>,
        rope_cos: &[T],
        rope_sin: &[T],
        pos: usize,
        Ghost(h): Ghost<nat>,
    ) -> (r: Vec<T>)
        requires
            scalar::mathematics::<T, M>(),
            packed::packing::<T, Q>(),
            self.wf(h),
            self.matches(*old(state)),
            old(state).has_room(1),
            hidden@.len() == h,
            self.covered(gqa_layer::tables_of(rope_cos@, rope_sin@), (pos + 1) as nat),
        ensures
            self.matches(*final(state)),
            final(state).same_room(*old(state)),
            forall|n: nat| #[trigger] old(state).in_step(n) ==> final(state).in_step(n + 1),
            final(state)@ == self.one_state::<M>(
                old(state)@,
                hidden@,
                gqa_layer::tables_of(rope_cos@, rope_sin@),
                pos as int,
            ),
            r@ == self.one_output::<M>(
                old(state)@,
                hidden@,
                gqa_layer::tables_of(rope_cos@, rope_sin@),
                pos as int,
            ),
            r@.len() == h,
    {
        match (self, state) {
            (HybridLayer::DeltaNet(l), LayerState::DeltaNet(s)) => l.forward_one::<M>(hidden, s),
            (HybridLayer::Gqa(l), LayerState::Kv(s)) => l.forward_one::<M>(
                hidden,
                s,
                rope_cos,
                rope_sin,
                pos,
            ),
            (HybridLayer::LivConv(l), LayerState::Conv(s)) => l.forward_one::<M>(hidden, s),
            _ => copy_slice(hidden),
        }
    }

    /// One more row of a sequence that goes on where the caches end is a
    /// single step from the state before it.
    pub proof fn lemma_append_row<M: Math<T>>(
        &self,
        v: LayerView<T>,
        x: Seq<T>,
        y: Seq<T>,
        n: nat,
        h: nat,
        tables: RopeTables<T>,
        pos: int,
    )
        requires
            self.wf(h),
            self.is_dense(),
            self.takes(v),
            v matches LayerView::Kv(s) ==> s.len == pos,
            x.len() == n * h,
            y.len() == h,
        ensures
            ({
                let before = self.seq_state::<M>(v, x, n, tables, pos);
                &&& self.seq_state::<M>(v, x + y, n + 1, tables, pos) == self.one_state::<M>(
                    before,
                    y,
                    tables,
                    pos + n,
                )
                &&& self.seq_output::<M>(v, x + y, n + 1, tables, pos) == self.seq_output::<M>(
                    v,
                    x,
                    n,
                    tables,
                    pos,
                ) + self.one_output::<M>(before, y, tables, pos + n)
            }),
    {
        match (self, v) {
            (HybridLayer::DeltaNet(l), LayerView::DeltaNet(s)) => {
                l.lemma_append_row::<M>(s, x, y, n);
            },
            (HybridLayer::Gqa(l), LayerView::Kv(s)) => {
                l.lemma_append_row::<M>(s, x, y, n, tables);
            },
            (HybridLayer::LivConv(l), LayerView::Conv(s)) => {
                l.lemma_append_row::<M>(s, x, y, n);
                l.lemma_dense_one::<M>(l.state_after::<M>(s, x, n), y);
            },
            _ => {},
        }
    }

    /// The lengths of outputs.
    pub proof fn lemma_output_len<M: Math<T>>(
        &self,
        v: LayerView<T>,
        x: Seq<T>,
        rows: nat,
        h: nat,
        tables: RopeTables<T>,
        pos: int,
    )
        requires
            self.wf(h),
            self.takes(v),
            x.len() == rows * h,
        ensures
            self.seq_output::<M>(v, x, rows, tables, pos).len() == rows * h,
            rows == 1 && self.is_dense() ==> self.one_output::<M>(v, x, tables, pos).len() == h,
    {
        match (self, v) {
            (HybridLayer::DeltaNet(l), LayerView::DeltaNet(s)) => {
                let f = |t: int|
                    l.output::<M>(
                        l.state_after::<M>(s, x, t as nat),
                        ops::row(x, t, l.hidden_size as int),
                    );
                assert forall|t: int| 0 <= t < rows implies #[trigger] f(t).len() == h by {
                    ops::lemma_row_bounds(t, rows as int, h as int);
                }
                ops::lemma_blocks_len(rows, f, h);
            },
            (HybridLayer::Gqa(l), LayerView::Kv(s)) => {
                let after = l.state_after::<M>(s, x, rows, tables, pos);
                let f = |t: int|
                    l.output::<M>(
                        ops::row(x, t, l.hidden_size as int),
                        after.keys,
                        after.values,
                        GqaDecoderLayer::<T, Q>::visible(s.len, pos, rows, t),
                        tables,
                        pos + t,
                    );
                assert forall|t: int| 0 <= t < rows implies #[trigger] f(t).len() == h by {
                    ops::lemma_row_bounds(t, rows as int, h as int);
                }
                ops::lemma_blocks_len(rows, f, h);
                if rows == 1 && self.is_dense() {
                    l.lemma_dense_one::<M>(s, x, tables, pos);
                }
            },
            (HybridLayer::LivConv(l), LayerView::Conv(s)) => {
                let f = |t: int|
                    l.output::<M>(
                        l.state_after::<M>(s, x, t as nat),
                        ops::row(x, t, l.hidden_size as int),
                    );
                assert forall|t: int| 0 <= t < rows implies #[trigger] f(t).len() == h by {
                    ops::lemma_row_bounds(t, rows as int, h as int);
                }
                ops::lemma_blocks_len(rows, f, h);
                if rows == 1 && self.is_dense() {
                    l.lemma_dense_one::<M>(s, x);
                }
            },
            _ => {},
        }
    }
}

// ── Model ────────────────────────────────────────────────────────────

/// A hybrid language model combining multiple layer types (e.g. Qwen3.5, LFM2.5).
pub struct HybridModel<T, Q> {
    pub config: HybridConfig,
    /// Minimal ModelConfig, for callers that are generic over models.
    pub model_config: ModelConfig,
    /// Embedding table: `[vocab_size, hidden_size]`.
    pub embed_tokens: Vec<T>,
    /// Embedding norm weight: `[hidden_size]`. Applied right after embedding lookup.
    /// Empty where the model has none.
    pub embed_norm_weight: Vec<T>,
    /// Decoder layers in order.
    pub layers: Vec<HybridLayer<T, Q>>,
    /// Final RMSNorm weight: `[hidden_size]`.
    pub final_norm_weight: Vec<T>,
    /// LM head weight: `[vocab_size, hidden_size]`. None if tied to embed_tokens.
    pub lm_head_weight: Option<Vec<T>>,
    /// Precomputed RoPE cos table: `[max_pos, head_dim/2]`.
    pub rope_cos: Vec<T>,
    /// Precomputed RoPE sin table: `[max_pos, head_dim/2]`.
    pub rope_sin: Vec<T>,
    /// What the layers remember.
    pub state: HybridState<T>,
}

/// A general configuration that describes the attention layers of a hybrid.
pub open spec fn general_config(c: HybridConfig, m: ModelConfig) -> bool {
    &&& m.name@ == "hybrid"@
    &&& m.architecture == (ArchitectureConfig {
        hidden_size: c.hidden_size,
        num_layers: c.num_layers,
        vocab_size: c.vocab_size,
        max_sequence_length: 4096,
        tie_word_embeddings: c.tie_embedding,
        embed_scale: None,
    })
    &&& m.attention == (AttentionConfig::GQA {
        num_heads: c.num_attention_heads,
        num_kv_heads: c.num_kv_heads,
        head_dim: c.gqa_head_dim,
    })
    &&& m.norm == (NormConfig::RMSNorm { eps: c.norm_eps })
    &&& m.ffn == (FFNConfig::SwiGLU { intermediate_size: c.intermediate_size })
    &&& m.position == (PositionConfig::RoPE {
        base: c.rope_theta,
        max_position_embeddings: 4096,
        style: RoPEStyle::RotateHalf,
        scaling: RoPEScaling::Unscaled,
    })
}

/// Build a minimal `ModelConfig` from a `HybridConfig`.
pub fn minimal_config_for_hybrid(hybrid: &HybridConfig) -> (r: ModelConfig)
    ensures
        general_config(*hybrid, r),
{
    ModelConfig {
        name: "hybrid".to_owned(),
        architecture: ArchitectureConfig {
            hidden_size: hybrid.hidden_size,
            num_layers: hybrid.num_layers,
            vocab_size: hybrid.vocab_size,
            max_sequence_length: 4096,
            tie_word_embeddings: hybrid.tie_embedding,
            embed_scale: None,
        },
        attention: AttentionConfig::GQA {
            num_heads: hybrid.num_attention_heads,
            num_kv_heads: hybrid.num_kv_heads,
            head_dim: hybrid.gqa_head_dim,
        },
        norm: NormConfig::RMSNorm { eps: hybrid.norm_eps },
        ffn: FFNConfig::SwiGLU { intermediate_size: hybrid.intermediate_size },
        position: PositionConfig::RoPE {
            base: hybrid.rope_theta,
            max_position_embeddings: 4096,
            style: RoPEStyle::default(),
            scaling: RoPEScaling::default(),
        },
    }
}

/// How many tokens the first KV cache holds; none without one.
pub open spec fn first_cache_len<T>(states: Seq<LayerState<T>>) -> nat
    decreases states.len(),
{
    if states.len() == 0 {
        0
    } else {
        match states[0] {
            LayerState::Kv(s) => s.len as nat,
            _ => first_cache_len(states.skip(1)),
        }
    }
}

/// The layer with its weights packed, where its kind has that.
pub open spec fn packed_layer<T: Scalar, Q: PackedLinear<T>>(l: HybridLayer<T, Q>) -> HybridLayer<
    T,
    Q,
> {
    match l {
        HybridLayer::DeltaNet(l) => HybridLayer::DeltaNet(l),
        HybridLayer::Gqa(l) => HybridLayer::Gqa(l.packed_form()),
        HybridLayer::LivConv(l) => HybridLayer::LivConv(l.packed_form()),
    }
}

impl<T: Scalar, Q: PackedLinear<T>> HybridModel<T, Q> {
    pub open spec fn tables(&self) -> RopeTables<T> {
        gqa_layer::tables_of(self.rope_cos@, self.rope_sin@)
    }

    /// The LM head weight (own or tied to embeddings).
    pub open spec fn head_weight(&self) -> Seq<T> {
        match self.lm_head_weight {
            Some(w) => w@,
            None => self.embed_tokens@,
        }
    }

    /// The weights have their sizes, and every layer has a state of its kind.
    pub open spec fn wf(&self) -> bool {
        let d = self.config.hidden_size as nat;
        &&& self.embed_tokens@.len() == self.config.vocab_size * d
        &&& self.head_weight().len() == self.config.vocab_size * d
        &&& self.embed_norm_weight@.len() == 0 || d <= self.embed_norm_weight@.len()
        &&& d <= self.final_norm_weight@.len()
        &&& self.layers@.len() == self.state.layer_states@.len()
        &&& forall|i: int| 0 <= i < self.layers@.len() ==> (#[trigger] self.layers@[i]).wf(d)
        &&& forall|i: int|
            0 <= i < self.layers@.len() ==> (#[trigger] self.layers@[i]).matches(
                self.state.layer_states@[i],
            )
    }

    /// `n` more tokens can be processed.
    pub open spec fn has_room(&self, n: nat) -> bool {
        &&& self.state.position + n <= usize::MAX
        &&& forall|i: int|
            0 <= i < self.state.layer_states@.len() ==> (
            #[trigger] self.state.layer_states@[i]).has_room(n)
        &&& forall|i: int|
            0 <= i < self.layers@.len() ==> (#[trigger] self.layers@[i]).covered(
                self.tables(),
                self.state.position as nat + n,
            )
    }

    /// Every KV cache holds the tokens up to the current position.
    pub open spec fn in_step(&self) -> bool {
        forall|i: int|
            0 <= i < self.state.layer_states@.len() ==> (
            #[trigger] self.state.layer_states@[i]).in_step(self.state.position as nat)
    }

    /// No layer has packed weights.
    pub open spec fn is_dense(&self) -> bool {
        forall|i: int| 0 <= i < self.layers@.len() ==> (#[trigger] self.layers@[i]).is_dense()
    }

    /// What the layers remember.
    pub open spec fn views(&self) -> Seq<LayerView<T>> {
        self.state.layer_states@.map_values(|s: LayerState<T>| s@)
    }

    /// The same model, whatever it remembers.
    pub open spec fn same_weights(&self, other: Self) -> bool {
        &&& self.config == other.config
        &&& self.model_config == other.model_config
        &&& self.embed_tokens == other.embed_tokens
        &&& self.embed_norm_weight == other.embed_norm_weight
        &&& self.layers == other.layers
        &&& self.final_norm_weight == other.final_norm_weight
        &&& self.lm_head_weight == other.lm_head_weight
        &&& self.rope_cos == other.rope_cos
        &&& self.rope_sin == other.rope_sin
    }

    /// The states have kept their buffers' lengths.
    pub open spec fn same_room(&self, other: Self) -> bool {
        &&& self.state.layer_states@.len() == other.state.layer_states@.len()
        &&& forall|i: int|
            0 <= i < self.state.layer_states@.len() ==> (
            #[trigger] self.state.layer_states@[i]).same_room(other.state.layer_states@[i])
    }

    pub open spec fn eps<M: Math<T>>(&self) -> T {
        scalar::binary64_of::<T, M>(self.config.norm_eps.bits)
    }

    /// A token's embedding; zeros for an id outside the vocabulary.
    pub open spec fn embedding(&self, id: u32) -> Seq<T> {
        let d = self.config.hidden_size;
        if id < self.config.vocab_size {
            ops::row(self.embed_tokens@, id as int, d as int)
        } else {
            buffer::repeated(scalar::zero(), d as nat)
        }
    }

    /// A token's embedding after the embedding norm, if the model has one.
    pub open spec fn embed_row<M: Math<T>>(&self, id: u32) -> Seq<T> {
        if self.embed_norm_weight@.len() == 0 {
            self.embedding(id)
        } else {
            ops::rms_row::<T, M>(self.embedding(id), self.embed_norm_weight@, self.eps::<M>())
        }
    }

    /// The embeddings of a sequence of tokens.
    pub open spec fn embeddings<M: Math<T>>(&self, ids: Seq<u32>) -> Seq<T> {
        ops::blocks(ids.len(), |t: int| self.embed_row::<M>(ids[t]))
    }

    /// The rows after the first `i` layers.
    pub open spec fn hidden_after<M: Math<T>>(
        &self,
        views: Seq<LayerView<T>>,
        x: Seq<T>,
        rows: nat,
        pos: int,
        i: nat,
    ) -> Seq<T>
        decreases i,
    {
        if i == 0 {
            x
        } else {
            self.layers@[i - 1].seq_output::<M>(
                views[i - 1],
                self.hidden_after::<M>(views, x, rows, pos, (i - 1) as nat),
                rows,
                self.tables(),
                pos,
            )
        }
    }

    /// What the layers remember after a sequence.
    pub open spec fn views_after<M: Math<T>>(
        &self,
        views: Seq<LayerView<T>>,
        x: Seq<T>,
        rows: nat,
        pos: int,
    ) -> Seq<LayerView<T>> {
        Seq::new(
            self.layers@.len(),
            |i: int|
                self.layers@[i].seq_state::<M>(
                    views[i],
                    self.hidden_after::<M>(views, x, rows, pos, i as nat),
                    rows,
                    self.tables(),
                    pos,
                ),
        )
    }

    /// A single row after the first `i` layers.
    pub open spec fn one_after<M: Math<T>>(
        &self,
        views: Seq<LayerView<T>>,
        x: Seq<T>,
        pos: int,
        i: nat,
    ) -> Seq<T>
        decreases i,
    {
        if i == 0 {
            x
        } else {
            self.layers@[i - 1].one_output::<M>(
                views[i - 1],
                self.one_after::<M>(views, x, pos, (i - 1) as nat),
                self.tables(),
                pos,
            )
        }
    }

    /// What the layers remember after a single row.
    pub open spec fn views_after_one<M: Math<T>>(
        &self,
        views: Seq<LayerView<T>>,
        x: Seq<T>,
        pos: int,
    ) -> Seq<LayerView<T>> {
        Seq::new(
            self.layers@.len(),
            |i: int|
                self.layers@[i].one_state::<M>(
                    views[i],
                    self.one_after::<M>(views, x, pos, i as nat),
                    self.tables(),
                    pos,
                ),
        )
    }

    /// `s` is the state of layer `j` after a sequence.
    #[verifier::opaque]
    spec fn advanced<M: Math<T>>(&self, x: Seq<T>, rows: nat, j: int, s: LayerState<T>) -> bool {
        let pos = self.state.position as int;
        &&& self.layers@[j].matches(s)
        &&& s.same_room(self.state.layer_states@[j])
        &&& s@ == self.layers@[j].seq_state::<M>(
            self.views()[j],
            self.hidden_after::<M>(self.views(), x, rows, pos, j as nat),
            rows,
            self.tables(),
            pos,
        )
        &&& self.state.layer_states@[j].in_step(pos as nat) ==> s.in_step((pos + rows) as nat)
    }

    /// `s` is the state of layer `j` after a single row.
    #[verifier::opaque]
    spec fn advanced_one<M: Math<T>>(&self, x: Seq<T>, j: int, s: LayerState<T>) -> bool {
        let pos = self.state.position as int;
        &&& self.layers@[j].matches(s)
        &&& s.same_room(self.state.layer_states@[j])
        &&& s@ == self.layers@[j].one_state::<M>(
            self.views()[j],
            self.one_after::<M>(self.views(), x, pos, j as nat),
            self.tables(),
            pos,
        )
        &&& self.state.layer_states@[j].in_step(pos as nat) ==> s.in_step((pos + 1) as nat)
    }

    /// The logits of a row after all layers.
    pub open spec fn logits_of<M: Math<T>>(&self, x: Seq<T>) -> Seq<T> {
        ops::linear_row(
            ops::rms_row::<T, M>(x, self.final_norm_weight@, self.eps::<M>()),
            self.head_weight(),
            Seq::empty(),
            self.config.hidden_size as nat,
            self.config.vocab_size as nat,
        )
    }

    /// The logits for the last of a sequence of tokens.
    pub open spec fn prefill_logits<M: Math<T>>(
        &self,
        views: Seq<LayerView<T>>,
        ids: Seq<u32>,
        pos: int,
    ) -> Seq<T> {
        let x = self.hidden_after::<M>(
            views,
            self.embeddings::<M>(ids),
            ids.len(),
            pos,
            self.layers@.len(),
        );
        self.logits_of::<M>(
            ops::row(x, ids.len() - 1, self.config.hidden_size as int),
        )
    }

    /// The logits for a single token.
    pub open spec fn decode_logits<M: Math<T>>(
        &self,
        views: Seq<LayerView<T>>,
        id: u32,
        pos: int,
    ) -> Seq<T> {
        self.logits_of::<M>(
            self.one_after::<M>(views, self.embed_row::<M>(id), pos, self.layers@.len()),
        )
    }

    /// Create a new HybridModel. State is initialised internally.
    ///
    /// `max_kv_seq` controls the pre-allocated KV cache length for GQA layers.
    pub fn new(
        config: HybridConfig,
        embed_tokens: Vec<T>,
        embed_norm_weight: Vec<T>,
        layers: Vec<HybridLayer<T, Q>>,
        final_norm_weight: Vec<T>,
        lm_head_weight: Option<Vec<T>>,
        rope_cos: Vec<T>,
        rope_sin: Vec<T>,
        max_kv_seq: usize,
    ) -> (r: Self)
        requires
            scalar::arithmetic::<T>(),
            config.wf(),
            forall|i: int|
                0 <= i < config.num_layers ==> sizes_fit(
                    config,
                    #[trigger] config.kind(i),
                    max_kv_seq,
                ),
        ensures
            r.config == config,
            general_config(config, r.model_config),
            r.embed_tokens == embed_tokens,
            r.embed_norm_weight == embed_norm_weight,
            r.layers == layers,
            r.final_norm_weight == final_norm_weight,
            r.lm_head_weight == lm_head_weight,
            r.rope_cos == rope_cos,
            r.rope_sin == rope_sin,
            r.state.position == 0,
            r.state.layer_states@.len() == config.num_layers,
            forall|i: int|
                0 <= i < config.num_layers ==> (#[trigger] r.state.layer_states@[i])@
                    == blank_state::<T>(config, config.kind(i)),
            forall|i: int|
                0 <= i < config.num_layers ==> state_fits(
                    #[trigger] r.state.layer_states@[i],
                    config,
                    config.kind(i),
                    max_kv_seq,
                ),
    {
        let state = HybridState::new(&config, max_kv_seq);
        let model_config = minimal_config_for_hybrid(&config);
        HybridModel {
            config,
            model_config,
            embed_tokens,
            embed_norm_weight,
            layers,
            final_norm_weight,
            lm_head_weight,
            rope_cos,
            rope_sin,
            state,
        }
    }

    /// Packs all layer weights for fast GEMV decode. DeltaNet layers have no
    /// packed form.
    pub fn quantize_layers_for_decode(&mut self)
        requires
            packed::packing::<T, Q>(),
            forall|i: int|
                0 <= i < old(self).layers@.len() ==> (#[trigger] old(self).layers@[i]).wf(
                    old(self).config.hidden_size as nat,
                ),
        ensures
            final(self).layers@ == old(self).layers@.map_values(
                |l: HybridLayer<T, Q>| packed_layer(l),
            ),
            forall|i: int|
                0 <= i < final(self).layers@.len() ==> (#[trigger] final(self).layers@[i]).wf(
                    final(self).config.hidden_size as nat,
                ),
            *final(self) == (HybridModel { layers: final(self).layers, ..*old(self) }),
    {
        let ghost start = *self;
        let ghost d = self.config.hidden_size as nat;
        let count = self.layers.len();
        for n in 0..count
            invariant
                packed::packing::<T, Q>(),
                count == start.layers@.len(),
                self.layers@.len() == count,
                d == start.config.hidden_size,
                *self == (HybridModel { layers: self.layers, ..start }),
                forall|i: int| 0 <= i < count ==> (#[trigger] start.layers@[i]).wf(d),
                forall|i: int|
                    0 <= i < n ==> #[trigger] self.layers@[i] == packed_layer(start.layers@[i]),
                forall|i: int| 0 <= i < n ==> (#[trigger] self.layers@[i]).wf(d),
                forall|i: int| n <= i < count ==> #[trigger] self.layers@[i] == start.layers@[i],
        {
            assert(self.layers@[n as int] == start.layers@[n as int]);
            assert(start.layers@[n as int].wf(d));
            match &mut self.layers[n] {
                HybridLayer::LivConv(l) => l.quantize_for_decode(),
                HybridLayer::Gqa(l) => l.quantize_for_decode(),
                HybridLayer::DeltaNet(_) => {},
            }
        }
        assert(self.layers@ =~= start.layers@.map_values(
            |l: HybridLayer<T, Q>| packed_layer(l),
        ));
    }

    /// Reset all internal state (both DeltaNet recurrent state and KV caches).
    pub fn reset_state(&mut self)
        requires
            scalar::arithmetic::<T>(),
            forall|i: int|
                0 <= i < old(self).state.layer_states@.len() ==> (
                #[trigger] old(self).state.layer_states@[i]).wf(),
        ensures
            final(self).same_weights(*old(self)),
            final(self).state.position == 0,
            final(self).state.layer_states@.len() == old(self).state.layer_states@.len(),
            forall|i: int|
                0 <= i < final(self).state.layer_states@.len() ==> cleared(
                    old(self).state.layer_states@[i],
                    #[trigger] final(self).state.layer_states@[i],
                ),
    {
        self.state.reset();
    }

    /// Get the effective LM head weight (own or tied to embeddings).
    pub fn lm_head(&self) -> (r: &[T])
        ensures
            r@ == self.head_weight(),
    {
        match &self.lm_head_weight {
            Some(w) => w.as_slice(),
            None => self.embed_tokens.as_slice(),
        }
    }

    /// A token's embedding as it stands in the table.
    pub fn token_embedding(&self, id: u32) -> (r: Vec<T>)
        requires
            scalar::arithmetic::<T>(),
            self.embed_tokens@.len() == self.config.vocab_size * self.config.hidden_size,
        ensures
            r@ == self.embedding(id),
            r@.len() == self.config.hidden_size,
    {
        let d = self.config.hidden_size;
        let vocab = self.config.vocab_size;
        if (id as u64) < vocab as u64 {
            let at = id as usize;
            proof {
                ops::lemma_row_bounds(at as int, vocab as int, d as int);
            }
            copy_slice(row_slice(self.embed_tokens.as_slice(), at, d))
        } else {
            filled(T::default(), d)
        }
    }

    fn embed<M: Math<T>>(&self, id: u32) -> (r: Vec<T>)
        requires
            scalar::mathematics::<T, M>(),
            self.embed_tokens@.len() == self.config.vocab_size * self.config.hidden_size,
            self.embed_norm_weight@.len() == 0 || self.config.hidden_size
                <= self.embed_norm_weight@.len(),
        ensures
            r@ == self.embed_row::<M>(id),
            r@.len() == self.config.hidden_size,
    {
        let row = self.token_embedding(id);
        if self.embed_norm_weight.len() == 0 {
            row
        } else {
            let eps = M::from_binary64(self.config.norm_eps.bits);
            rms_normalize::<T, M>(row.as_slice(), self.embed_norm_weight.as_slice(), eps)
        }
    }

    fn read_logits<M: Math<T>>(&self, x: &[T]) -> (r: ModelOutput<T>)
        requires
            scalar::mathematics::<T, M>(),
            x@.len() == self.config.hidden_size,
            self.config.hidden_size <= self.final_norm_weight@.len(),
            self.head_weight().len() == self.config.vocab_size * self.config.hidden_size,
        ensures
            r.logits@ == self.logits_of::<M>(x@),
            r.logits@ == ops::linear_row(
                ops::rms_row::<T, M>(
                    x@,
                    self.final_norm_weight@,
                    scalar::binary64_of::<T, M>(self.config.norm_eps.bits),
                ),
                self.head_weight(),
                Seq::empty(),
                self.config.hidden_size as nat,
                self.config.vocab_size as nat,
            ),
            r.logits@.len() == self.config.vocab_size,
            r.shape@ == seq![1usize, 1usize, self.config.vocab_size],
    {
        let d = self.config.hidden_size;
        let vocab = self.config.vocab_size;
        let none: Vec<T> = Vec::new();
        let eps = M::from_binary64(self.config.norm_eps.bits);
        let normed = rms_normalize::<T, M>(x, self.final_norm_weight.as_slice(), eps);
        let logits = linear_vec(normed.as_slice(), self.lm_head(), none.as_slice(), d, vocab);
        ModelOutput { logits, shape: [1, 1, vocab] }
    }

    /// Process a sequence of tokens (prefill). Returns logits for the last token.
    #[verifier::spinoff_prover]
    #[verifier::rlimit(40)]
    pub fn prefill<M: Math<T>>(&mut self, token_ids: &[u32]) -> (r: ModelOutput<T>)
        requires
            scalar::mathematics::<T, M>(),
            old(self).wf(),
            token_ids@.len() > 0,
            old(self).has_room(token_ids@.len()),
        ensures
            r.logits@ == old(self).prefill_logits::<M>(
                old(self).views(),
                token_ids@,
                old(self).state.position as int,
            ),
            r.logits@ == ops::linear_row(
                ops::rms_row::<T, M>(
                    ops::row(
                        old(self).hidden_after::<M>(
                            old(self).views(),
                            old(self).embeddings::<M>(token_ids@),
                            token_ids@.len(),
                            old(self).state.position as int,
                            old(self).layers@.len(),
                        ),
                        token_ids@.len() - 1,
                        old(self).config.hidden_size as int,
                    ),
                    old(self).final_norm_weight@,
                    scalar::binary64_of::<T, M>(old(self).config.norm_eps.bits),
                ),
                old(self).head_weight(),
                Seq::empty(),
                old(self).config.hidden_size as nat,
                old(self).config.vocab_size as nat,
            ),
            r.logits@.len() == old(self).config.vocab_size,
            r.shape@ == seq![1usize, 1usize, old(self).config.vocab_size],
            final(self).wf(),
            final(self).same_weights(*old(self)),
            final(self).same_room(*old(self)),
            final(self).state.position == old(self).state.position + token_ids@.len(),
            final(self).views() == old(self).views_after::<M>(
                old(self).views(),
                old(self).embeddings::<M>(token_ids@),
                token_ids@.len(),
                old(self).state.position as int,
            ),
            old(self).in_step() ==> final(self).in_step(),
    {
        let ghost start = *self;
        let ghost views = self.views();
        let ghost x0 = self.embeddings::<M>(token_ids@);
        let d = self.config.hidden_size;
        let seq_len = token_ids.len();
        let pos = self.state.position;
        let ghost rows = seq_len as nat;
        // 1. Embedding lookup -> [seq_len, hidden_size]
        let ghost f = |t: int| start.embed_row::<M>(token_ids@[t]);
        let mut hidden: Vec<T> = Vec::new();
        assert(0 * d == 0) by (nonlinear_arith);
        for t in 0..seq_len
            invariant
                scalar::mathematics::<T, M>(),
                *self == start,
                start.wf(),
                d == start.config.hidden_size,
                seq_len == token_ids@.len(),
                f == (|t: int| start.embed_row::<M>(token_ids@[t])),
                hidden@ == ops::blocks(t as nat, f),
                hidden@.len() == t * d,
        {
            let row = self.embed::<M>(token_ids[t]);
            extend(&mut hidden, row.as_slice());
            assert(hidden@ =~= ops::blocks((t + 1) as nat, f));
            assert((t + 1) * d == t * d + d) by (nonlinear_arith);
        }
        // 2. Process through all layers
        let count = self.layers.len();
        for i in 0..count
            invariant
                scalar::mathematics::<T, M>(),
                start.wf(),
                start.has_room(rows),
                self.same_weights(start),
                self.state.position == start.state.position,
                count == start.layers@.len(),
                views == start.views(),
                pos == start.state.position,
                pos + seq_len <= usize::MAX,
                rows == seq_len,
                d == start.config.hidden_size,
                self.state.layer_states@.len() == count,
                start.state.layer_states@.len() == count,
                hidden@.len() == seq_len * d,
                hidden@ == start.hidden_after::<M>(views, x0, rows, pos as int, i as nat),
                forall|j: int|
                    0 <= j < i ==> start.advanced::<M>(
                        x0,
                        rows,
                        j,
                        #[trigger] self.state.layer_states@[j],
                    ),
                forall|j: int|
                    i <= j < count ==> #[trigger] self.state.layer_states@[j]
                        == start.state.layer_states@[j],
        {
            proof {
                assert(self.state.layer_states@[i as int] == start.state.layer_states@[i as int]);
                assert(start.layers@[i as int].wf(d as nat));
                assert(start.layers@[i as int].matches(start.state.layer_states@[i as int]));
                assert(start.state.layer_states@[i as int].has_room(rows));
                assert(start.layers@[i as int].covered(start.tables(), pos as nat + rows));
                assert(views[i as int] == start.state.layer_states@[i as int]@);
            }
            let next = self.layers[i].run_seq::<M>(
                hidden.as_slice(),
                seq_len,
                &mut self.state.layer_states[i],
                self.rope_cos.as_slice(),
                self.rope_sin.as_slice(),
                pos,
                Ghost(d as nat),
            );
            hidden = next;
            assert(start.advanced::<M>(
                x0,
                rows,
                i as int,
                self.state.layer_states@[i as int],
            )) by {
                reveal(HybridModel::advanced);
            }
        }
        self.state.position = pos + seq_len;
        proof {
            reveal(HybridModel::advanced);
            assert(self.views() =~= start.views_after::<M>(views, x0, rows, pos as int));
            ops::lemma_row_bounds(seq_len - 1, seq_len as int, d as int);
            assert forall|i: int| 0 <= i < self.layers@.len() implies (
            #[trigger] self.layers@[i]).matches(self.state.layer_states@[i]) by {
                let s = self.state.layer_states@[i];
            }
            if start.in_step() {
                assert forall|i: int| 0 <= i < self.state.layer_states@.len() implies (
                #[trigger] self.state.layer_states@[i]).in_step(self.state.position as nat) by {
                    assert(start.state.layer_states@[i].in_step(pos as nat));
                }
            }
        }
        // 3. Final norm on last token and LM head
        self.read_logits::<M>(row_slice(hidden.as_slice(), seq_len - 1, d))
    }

    /// Process a single token (decode step). Returns logits.
    pub fn decode_one<M: Math<T>>(&mut self, token: u32) -> (r: ModelOutput<T>)
        requires
            scalar::mathematics::<T, M>(),
            packed::packing::<T, Q>(),
            old(self).wf(),
            old(self).has_room(1),
        ensures
            r.logits@ == old(self).decode_logits::<M>(
                old(self).views(),
                token,
                old(self).state.position as int,
            ),
            r.logits@ == ops::linear_row(
                ops::rms_row::<T, M>(
                    old(self).one_after::<M>(
                        old(self).views(),
                        old(self).embed_row::<M>(token),
                        old(self).state.position as int,
                        old(self).layers@.len(),
                    ),
                    old(self).final_norm_weight@,
                    scalar::binary64_of::<T, M>(old(self).config.norm_eps.bits),
                ),
                old(self).head_weight(),
                Seq::empty(),
                old(self).config.hidden_size as nat,
                old(self).config.vocab_size as nat,
            ),
            r.logits@.len() == old(self).config.vocab_size,
            r.shape@ == seq![1usize, 1usize, old(self).config.vocab_size],
            final(self).wf(),
            final(self).same_weights(*old(self)),
            final(self).same_room(*old(self)),
            final(self).state.position == old(self).state.position + 1,
            final(self).views() == old(self).views_after_one::<M>(
                old(self).views(),
                old(self).embed_row::<M>(token),
                old(self).state.position as int,
            ),
            old(self).in_step() ==> final(self).in_step(),
    {
        let ghost start = *self;
        let ghost views = self.views();
        let ghost x0 = self.embed_row::<M>(token);
        let d = self.config.hidden_size;
        let pos = self.state.position;
        // 1. Embedding
        let mut hidden = self.embed::<M>(token);
        // 2. Process through all layers
        let count = self.layers.len();
        for i in 0..count
            invariant
                scalar::mathematics::<T, M>(),
                packed::packing::<T, Q>(),
                start.wf(),
                start.has_room(1),
                self.same_weights(start),
                self.state.position == start.state.position,
                count == start.layers@.len(),
                views == start.views(),
                pos == start.state.position,
                pos < usize::MAX,
                d == start.config.hidden_size,
                self.state.layer_states@.len() == count,
                start.state.layer_states@.len() == count,
                hidden@.len() == d,
                hidden@ == start.one_after::<M>(views, x0, pos as int, i as nat),
                forall|j: int|
                    0 <= j < i ==> start.advanced_one::<M>(
                        x0,
                        j,
                        #[trigger] self.state.layer_states@[j],
                    ),
                forall|j: int|
                    i <= j < count ==> #[trigger] self.state.layer_states@[j]
                        == start.state.layer_states@[j],
        {
            proof {
                assert(self.state.layer_states@[i as int] == start.state.layer_states@[i as int]);
                assert(start.layers@[i as int].wf(d as nat));
                assert(start.layers@[i as int].matches(start.state.layer_states@[i as int]));
                assert(start.state.layer_states@[i as int].has_room(1));
                assert(start.layers@[i as int].covered(start.tables(), pos as nat + 1));
                assert(views[i as int] == start.state.layer_states@[i as int]@);
            }
            let next = self.layers[i].run_one::<M>(
                hidden.as_slice(),
                &mut self.state.layer_states[i],
                self.rope_cos.as_slice(),
                self.rope_sin.as_slice(),
                pos,
                Ghost(d as nat),
            );
            hidden = next;
            proof {
                reveal(HybridModel::advanced_one);
            }
        }
        self.state.position = pos + 1;
        proof {
            reveal(HybridModel::advanced_one);
            assert(self.views() =~= start.views_after_one::<M>(views, x0, pos as int));
            assert forall|i: int| 0 <= i < self.layers@.len() implies (
            #[trigger] self.layers@[i]).matches(self.state.layer_states@[i]) by {
                let s = self.state.layer_states@[i];
            }
            if start.in_step() {
                assert forall|i: int| 0 <= i < self.state.layer_states@.len() implies (
                #[trigger] self.state.layer_states@[i]).in_step(self.state.position as nat) by {
                    assert(start.state.layer_states@[i].in_step(pos as nat));
                }
            }
        }
        // 3. Final norm and LM head
        self.read_logits::<M>(hidden.as_slice())
    }

    /// Device-resident single-token decode: `run` takes the token's embedding
    /// through all layers, the final norm and the LM head, on states of its
    /// own, and gives the logits. Only the embedding lookup is on the host,
    /// whose position moves along.
    pub fn forward_one_gpu_resident<F: FnOnce(Vec<T>) -> Vec<T>>(
        &mut self,
        token: u32,
        run: F,
    ) -> (r: ModelOutput<T>)
        requires
            scalar::arithmetic::<T>(),
            old(self).wf(),
            old(self).state.position < usize::MAX,
            forall|x: Vec<T>|
                x@ == old(self).embedding(token) ==> #[trigger] call_requires(run, (x,)),
        ensures
            exists|x: Vec<T>|
                x@ == old(self).embedding(token) && #[trigger] call_ensures(
                    run,
                    (x,),
                    r.logits,
                ),
            r.shape@ == seq![1usize, 1usize, old(self).config.vocab_size],
            final(self).wf(),
            final(self).same_weights(*old(self)),
            final(self).state.layer_states == old(self).state.layer_states,
            final(self).state.position == old(self).state.position + 1,
    {
        // 1. Embedding lookup (on the host: tiny, not worth a dispatch)
        let hidden = self.token_embedding(token);
        // 2. All layers + final norm + LM head
        let ghost given = hidden;
        let logits = run(hidden);
        // 3. Sync position
        self.state.position = self.state.position + 1;
        let shape: [usize; 3] = [1, 1, self.config.vocab_size];
        assert(shape@ =~= seq![1usize, 1usize, self.config.vocab_size]);
        let out = ModelOutput { logits, shape };
        assert(given@ == old(self).embedding(token));
        assert(call_ensures(run, (given,), out.logits));
        out
    }

    /// Total heap memory used by the internal state (bytes).
    pub fn state_memory_bytes(&self) -> (r: usize)
        requires
            self.state.total(any_state()) <= usize::MAX,
            self.state.total(any_state()) * vstd::layout::size_of::<T>() <= usize::MAX,
        ensures
            r == self.state.total(any_state()) * vstd::layout::size_of::<T>(),
    {
        self.state.memory_bytes()
    }

    /// Memory used by DeltaNet recurrent states only (bytes). Constant.
    pub fn deltanet_state_memory_bytes(&self) -> (r: usize)
        requires
            self.state.total(deltanet_states()) <= usize::MAX,
            self.state.total(deltanet_states()) * vstd::layout::size_of::<T>() <= usize::MAX,
        ensures
            r == self.state.total(deltanet_states()) * vstd::layout::size_of::<T>(),
    {
        self.state.deltanet_memory_bytes()
    }

    /// Current number of tokens in the KV cache (grows with each decode step).
    pub fn kv_cache_len(&self) -> (r: usize)
        ensures
            r == first_cache_len(self.state.layer_states@),
    {
        let ghost states = self.state.layer_states@;
        assert(states.skip(0) =~= states);
        for i in 0..self.state.layer_states.len()
            invariant
                states == self.state.layer_states@,
                first_cache_len(states) == first_cache_len(states.skip(i as int)),
        {
            assert(states.skip(i as int)[0] == states[i as int]);
            assert(states.skip(i as int).skip(1) =~= states.skip(i + 1));
            match &self.state.layer_states[i] {
                LayerState::Kv(s) => return s.len,
                _ => {},
            }
        }
        0
    }

    /// Runs a sequence of tokens from an empty state.
    pub fn forward<M: Math<T>>(&mut self, token_ids: &[u32]) -> (r: ModelOutput<T>)
        requires
            scalar::mathematics::<T, M>(),
            old(self).wf(),
            token_ids@.len() > 0,
            old(self).has_length_for(token_ids@.len()),
        ensures
            r.logits@ == old(self).prefill_logits::<M>(old(self).blank_views(), token_ids@, 0),
            r.logits@.len() == old(self).config.vocab_size,
            r.shape@ == seq![1usize, 1usize, old(self).config.vocab_size],
            final(self).wf(),
            final(self).same_weights(*old(self)),
            final(self).same_room(*old(self)),
            final(self).state.position == token_ids@.len(),
            final(self).in_step(),
            final(self).views() == old(self).views_after::<M>(
                old(self).blank_views(),
                old(self).embeddings::<M>(token_ids@),
                token_ids@.len(),
                0,
            ),
    {
        let ghost start = *self;
        let seq_len = token_ids.len();
        proof {
            self.lemma_states_wf();
        }
        self.reset_state();
        let ghost reset = *self;
        proof {
            start.lemma_reset(reset, seq_len as nat);
        }
        let r = self.prefill::<M>(token_ids);
        proof {
            start.lemma_same_specs::<M>(
                reset,
                start.blank_views(),
                start.embeddings::<M>(token_ids@),
                token_ids@,
                0,
            );
            assert forall|i: int| 0 <= i < self.state.layer_states@.len() implies (
            #[trigger] self.state.layer_states@[i]).same_room(start.state.layer_states@[i]) by {
                assert(self.state.layer_states@[i].same_room(reset.state.layer_states@[i]));
                assert(cleared(start.state.layer_states@[i], reset.state.layer_states@[i]));
            }
        }
        r
    }

    /// Runs a prompt from an empty state.
    pub fn forward_prefill<M: Math<T>>(&mut self, token_ids: &[u32]) -> (r: ModelOutput<T>)
        requires
            scalar::mathematics::<T, M>(),
            old(self).wf(),
            token_ids@.len() > 0,
            old(self).has_length_for(token_ids@.len()),
        ensures
            r.logits@ == old(self).prefill_logits::<M>(old(self).blank_views(), token_ids@, 0),
            r.logits@.len() == old(self).config.vocab_size,
            r.shape@ == seq![1usize, 1usize, old(self).config.vocab_size],
            final(self).wf(),
            final(self).same_weights(*old(self)),
            final(self).same_room(*old(self)),
            final(self).state.position == token_ids@.len(),
            final(self).in_step(),
            final(self).views() == old(self).views_after::<M>(
                old(self).blank_views(),
                old(self).embeddings::<M>(token_ids@),
                token_ids@.len(),
                0,
            ),
    {
        self.forward::<M>(token_ids)
    }

    /// Runs one more token from the state as it is.
    pub fn forward_one<M: Math<T>>(&mut self, token: u32) -> (r: ModelOutput<T>)
        requires
            scalar::mathematics::<T, M>(),
            packed::packing::<T, Q>(),
            old(self).wf(),
            old(self).has_room(1),
        ensures
            r.logits@ == old(self).decode_logits::<M>(
                old(self).views(),
                token,
                old(self).state.position as int,
            ),
            r.logits@.len() == old(self).config.vocab_size,
            r.shape@ == seq![1usize, 1usize, old(self).config.vocab_size],
            final(self).wf(),
            final(self).same_weights(*old(self)),
            final(self).same_room(*old(self)),
            final(self).state.position == old(self).state.position + 1,
            final(self).views() == old(self).views_after_one::<M>(
                old(self).views(),
                old(self).embed_row::<M>(token),
                old(self).state.position as int,
            ),
            old(self).in_step() ==> final(self).in_step(),
    {
        self.decode_one::<M>(token)
    }

    /// How many decoder layers there are.
    pub fn num_layers(&self) -> (r: usize)
        ensures
            r == self.layers@.len(),
    {
        self.layers.len()
    }

    /// The general configuration.
    pub fn config(&self) -> (r: &ModelConfig)
        ensures
            *r == self.model_config,
    {
        &self.model_config
    }
}

// ── Laws ─────────────────────────────────────────────────────────────

/// What a state remembers once it has been reset.
pub open spec fn blank_of<T: Scalar>(s: LayerState<T>) -> LayerView<T> {
    match s {
        LayerState::DeltaNet(s) => LayerView::DeltaNet(
            deltanet_state::blank_deltanet::<T>(
                s.num_heads as nat,
                s.head_dim as nat,
                s.conv_kernel as nat,
            ),
        ),
        LayerState::Kv(_) => LayerView::Kv(gqa_layer::blank_cache::<T>()),
        LayerState::Conv(s) => LayerView::Conv(
            buffer::repeated(scalar::zero::<T>(), (s.inner_size * s.kernel_size) as nat),
        ),
    }
}

impl<T: Scalar, Q: PackedLinear<T>> HybridModel<T, Q> {
    /// What the layers remember once they have been reset.
    pub open spec fn blank_views(&self) -> Seq<LayerView<T>> {
        self.state.layer_states@.map_values(|s: LayerState<T>| blank_of(s))
    }

    /// `n` tokens fit into the caches and the tables once the state has been
    /// reset.
    pub open spec fn has_length_for(&self, n: nat) -> bool {
        &&& forall|i: int|
            0 <= i < self.state.layer_states@.len() ==> (
            #[trigger] self.state.layer_states@[i] matches LayerState::Kv(s) ==> n <= s.max_seq)
        &&& forall|i: int|
            0 <= i < self.layers@.len() ==> (#[trigger] self.layers@[i]).covered(self.tables(), n)
    }

    proof fn lemma_states_wf(&self)
        requires
            self.wf(),
        ensures
            forall|i: int|
                0 <= i < self.state.layer_states@.len() ==> (
                #[trigger] self.state.layer_states@[i]).wf(),
    {
        assert forall|i: int| 0 <= i < self.state.layer_states@.len() implies (
        #[trigger] self.state.layer_states@[i]).wf() by {
            assert(self.layers@[i].matches(self.state.layer_states@[i]));
            if let LayerState::DeltaNet(s) = self.state.layer_states@[i] {
                let heads = s.num_heads as int;
                let dim = s.head_dim as int;
                assert(heads * dim * dim == heads * (dim * dim)) by (nonlinear_arith);
            }
        }
    }

    proof fn lemma_reset(&self, reset: Self, n: nat)
        requires
            self.wf(),
            self.has_length_for(n),
            n <= usize::MAX,
            reset.same_weights(*self),
            reset.state.position == 0,
            reset.state.layer_states@.len() == self.state.layer_states@.len(),
            forall|i: int|
                0 <= i < reset.state.layer_states@.len() ==> cleared(
                    self.state.layer_states@[i],
                    #[trigger] reset.state.layer_states@[i],
                ),
        ensures
            reset.wf(),
            reset.has_room(n),
            reset.in_step(),
            reset.views() == self.blank_views(),
    {
        let d = self.config.hidden_size as nat;
        assert forall|i: int| 0 <= i < reset.layers@.len() implies (
        #[trigger] reset.layers@[i]).matches(reset.state.layer_states@[i]) by {
            assert(self.layers@[i].matches(self.state.layer_states@[i]));
            assert(cleared(self.state.layer_states@[i], reset.state.layer_states@[i]));
        }
        assert forall|i: int| 0 <= i < reset.state.layer_states@.len() implies (
        #[trigger] reset.state.layer_states@[i]).has_room(n)
            && reset.state.layer_states@[i].in_step(0) by {
            assert(cleared(self.state.layer_states@[i], reset.state.layer_states@[i]));
            let s = self.state.layer_states@[i];
        }
        assert(reset.views() =~= self.blank_views()) by {
            assert forall|i: int| 0 <= i < reset.state.layer_states@.len() implies (
            #[trigger] reset.state.layer_states@[i])@ == blank_of(self.state.layer_states@[i]) by {
                assert(cleared(self.state.layer_states@[i], reset.state.layer_states@[i]));
            }
        }
        assert(forall|i: int| 0 <= i < self.layers@.len() ==> (#[trigger] self.layers@[i]).wf(d));
        assert(forall|i: int|
            0 <= i < self.layers@.len() ==> (#[trigger] self.layers@[i]).covered(
                self.tables(),
                n,
            ));
    }

    proof fn lemma_same_hidden<M: Math<T>>(
        &self,
        other: Self,
        views: Seq<LayerView<T>>,
        x: Seq<T>,
        rows: nat,
        pos: int,
        i: nat,
    )
        requires
            other.same_weights(*self),
        ensures
            other.hidden_after::<M>(views, x, rows, pos, i) == self.hidden_after::<M>(
                views,
                x,
                rows,
                pos,
                i,
            ),
        decreases i,
    {
        if i > 0 {
            self.lemma_same_hidden::<M>(other, views, x, rows, pos, (i - 1) as nat);
        }
    }

    /// What a prompt gives depends on the weights and on what the layers
    /// remember, and on nothing else of the model.
    pub proof fn lemma_same_specs<M: Math<T>>(
        &self,
        other: Self,
        views: Seq<LayerView<T>>,
        x: Seq<T>,
        ids: Seq<u32>,
        pos: int,
    )
        requires
            other.same_weights(*self),
        ensures
            other.embeddings::<M>(ids) == self.embeddings::<M>(ids),
            other.prefill_logits::<M>(views, ids, pos) == self.prefill_logits::<M>(
                views,
                ids,
                pos,
            ),
            other.views_after::<M>(views, x, ids.len(), pos) == self.views_after::<M>(
                views,
                x,
                ids.len(),
                pos,
            ),
    {
        let f = |t: int| self.embed_row::<M>(ids[t]);
        let g = |t: int| other.embed_row::<M>(ids[t]);
        assert forall|t: int| 0 <= t < ids.len() implies #[trigger] f(t) == g(t) by {}
        ops::lemma_blocks_same(ids.len(), f, g);
        self.lemma_same_hidden::<M>(
            other,
            views,
            self.embeddings::<M>(ids),
            ids.len(),
            pos,
            self.layers@.len(),
        );
        assert forall|i: int| 0 <= i < self.layers@.len() implies #[trigger] other.views_after::<
            M,
        >(views, x, ids.len(), pos)[i] == self.views_after::<M>(views, x, ids.len(), pos)[i] by {
            self.lemma_same_hidden::<M>(other, views, x, ids.len(), pos, i as nat);
        }
        assert(other.views_after::<M>(views, x, ids.len(), pos) =~= self.views_after::<M>(
            views,
            x,
            ids.len(),
            pos,
        ));
    }

    proof fn lemma_takes(&self)
        requires
            self.wf(),
        ensures
            forall|i: int|
                0 <= i < self.layers@.len() ==> (#[trigger] self.layers@[i]).takes(
                    self.views()[i],
                ),
    {
        assert forall|i: int| 0 <= i < self.layers@.len() implies (
        #[trigger] self.layers@[i]).takes(self.views()[i]) by {
            assert(self.layers@[i].matches(self.state.layer_states@[i]));
            match self.state.layer_states@[i] {
                LayerState::Kv(s) => {
                    s.lemma_view_fits();
                },
                _ => {},
            }
        }
    }

    proof fn lemma_hidden_splits<M: Math<T>>(&self, x: Seq<T>, y: Seq<T>, n: nat, i: nat)
        requires
            self.wf(),
            self.is_dense(),
            self.in_step(),
            i <= self.layers@.len(),
            x.len() == n * self.config.hidden_size,
            y.len() == self.config.hidden_size,
        ensures
            ({
                let v = self.views();
                let pos = self.state.position as int;
                let after = self.views_after::<M>(v, x, n, pos);
                let front = self.hidden_after::<M>(v, x, n, pos, i);
                let back = self.one_after::<M>(after, y, pos + n, i);
                &&& self.hidden_after::<M>(v, x + y, n + 1, pos, i) == front + back
                &&& front.len() == n * self.config.hidden_size
                &&& back.len() == self.config.hidden_size
            }),
        decreases i,
    {
        if i > 0 {
            let d = self.config.hidden_size as nat;
            let v = self.views();
            let pos = self.state.position as int;
            let after = self.views_after::<M>(v, x, n, pos);
            let j = (i - 1) as nat;
            self.lemma_hidden_splits::<M>(x, y, n, j);
            self.lemma_takes();
            let front = self.hidden_after::<M>(v, x, n, pos, j);
            let back = self.one_after::<M>(after, y, pos + n, j);
            let layer = self.layers@[i - 1];
            assert(layer.wf(d));
            assert(layer.is_dense());
            assert(layer.takes(v[i - 1]));
            assert(self.state.layer_states@[i - 1].in_step(pos as nat));
            layer.lemma_append_row::<M>(v[i - 1], front, back, n, d, self.tables(), pos);
            layer.lemma_output_len::<M>(v[i - 1], front, n, d, self.tables(), pos);
            assert((front + back).len() == (n + 1) * d) by (nonlinear_arith)
                requires
                    (front + back).len() == n * d + d,
            ;
            layer.lemma_output_len::<M>(v[i - 1], front + back, n + 1, d, self.tables(), pos);
            assert((n + 1) * d == n * d + d) by (nonlinear_arith);
        }
    }

    /// A prompt with one more token at its end gives the logits, and leaves
    /// the state, that the prompt and then a decode step of that token do. It
    /// holds of models whose weights are not packed.
    pub proof fn lemma_prefill_then_decode<M: Math<T>>(&self, ids: Seq<u32>, token: u32)
        requires
            self.wf(),
            self.is_dense(),
            self.in_step(),
        ensures
            ({
                let v = self.views();
                let pos = self.state.position as int;
                let n = ids.len();
                let after = self.views_after::<M>(v, self.embeddings::<M>(ids), n, pos);
                &&& self.prefill_logits::<M>(v, ids.push(token), pos) == self.decode_logits::<M>(
                    after,
                    token,
                    pos + n,
                )
                &&& self.views_after::<M>(
                    v,
                    self.embeddings::<M>(ids.push(token)),
                    n + 1,
                    pos,
                ) == self.views_after_one::<M>(after, self.embed_row::<M>(token), pos + n)
            }),
    {
        let d = self.config.hidden_size as nat;
        let v = self.views();
        let pos = self.state.position as int;
        let n = ids.len();
        let x = self.embeddings::<M>(ids);
        let y = self.embed_row::<M>(token);
        let all = ids.push(token);
        let f = |t: int| self.embed_row::<M>(ids[t]);
        let g = |t: int| self.embed_row::<M>(all[t]);
        assert forall|id: u32| (#[trigger] self.embed_row::<M>(id)).len() == d by {
            if id < self.config.vocab_size {
                ops::lemma_row_bounds(id as int, self.config.vocab_size as int, d as int);
            }
        }
        assert forall|t: int| 0 <= t < n implies #[trigger] f(t) == g(t) by {
            assert(all[t] == ids[t]);
        }
        ops::lemma_blocks_same(n, f, g);
        ops::lemma_blocks_len(n, f, d);
        assert(all[n as int] == token);
        assert(self.embeddings::<M>(all) == x + y);
        let after = self.views_after::<M>(v, x, n, pos);
        let count = self.layers@.len();
        self.lemma_hidden_splits::<M>(x, y, n, count);
        let front = self.hidden_after::<M>(v, x, n, pos, count);
        let back = self.one_after::<M>(after, y, pos + n, count);
        assert((n + 1) * d == n * d + d) by (nonlinear_arith);
        assert(ops::row(front + back, n as int, d as int) =~= back);
        let left = self.views_after::<M>(v, x + y, n + 1, pos);
        let right = self.views_after_one::<M>(after, y, pos + n);
        self.lemma_takes();
        assert forall|i: int| 0 <= i < count implies #[trigger] left[i] == right[i] by {
            self.lemma_hidden_splits::<M>(x, y, n, i as nat);
            assert(self.layers@[i].wf(d));
            assert(self.layers@[i].is_dense());
            assert(self.layers@[i].takes(v[i]));
            assert(self.state.layer_states@[i].in_step(pos as nat));
            self.layers@[i].lemma_append_row::<M>(
                v[i],
                self.hidden_after::<M>(v, x, n, pos, i as nat),
                self.one_after::<M>(after, y, pos + n, i as nat),
                n,
                d,
                self.tables(),
                pos,
            );
        }
        assert(left =~= right);
    }

    /// A model whose states have the dimensions of its configuration
    /// remembers after a reset what a new model remembers.
    pub proof fn lemma_reset_is_new(&self, max_kv_seq: usize)
        requires
            self.state.layer_states@.len() == self.config.num_layers,
            forall|i: int|
                0 <= i < self.config.num_layers ==> state_fits(
                    #[trigger] self.state.layer_states@[i],
                    self.config,
                    self.config.kind(i),
                    max_kv_seq,
                ),
        ensures
            forall|i: int|
                0 <= i < self.config.num_layers ==> #[trigger] self.blank_views()[i]
                    == blank_state::<T>(self.config, self.config.kind(i)),
    {
        assert forall|i: int| 0 <= i < self.config.num_layers implies #[trigger] self.blank_views()[i]
            == blank_state::<T>(self.config, self.config.kind(i)) by {
            let s = self.state.layer_states@[i];
            assert(state_fits(s, self.config, self.config.kind(i), max_kv_seq));
        }
    }

    /// Running tokens changes neither the memory of the states as a whole nor
    /// that of the DeltaNet states alone.
    pub proof fn lemma_constant_memory(&self, other: Self)
        requires
            self.same_room(other),
        ensures
            self.state.total(any_state()) == other.state.total(any_state()),
            self.state.total(deltanet_states()) == other.state.total(deltanet_states()),
            self.state.total(kv_states()) == other.state.total(kv_states()),
    {
        let n = self.state.layer_states@.len();
        self.lemma_constant_total(other, any_state(), n);
        self.lemma_constant_total(other, deltanet_states(), n);
        self.lemma_constant_total(other, kv_states(), n);
    }

    proof fn lemma_constant_total(
        &self,
        other: Self,
        which: spec_fn(LayerState<T>) -> bool,
        n: nat,
    )
        requires
            self.same_room(other),
            n <= self.state.layer_states@.len(),
            forall|a: LayerState<T>, b: LayerState<T>| #[trigger]
                a.same_room(b) ==> which(a) == which(b),
        ensures
            total_elements(self.state.layer_states@, which, n) == total_elements(
                other.state.layer_states@,
                which,
                n,
            ),
        decreases n,
    {
        if n > 0 {
            self.lemma_constant_total(other, which, (n - 1) as nat);
            assert(self.state.layer_states@[n - 1].same_room(other.state.layer_states@[n - 1]));
        }
    }

    /// With a KV cache, and caches that hold the tokens up to the current
    /// position, the length of the cache is that position: it grows by one
    /// with each token.
    pub proof fn lemma_cache_follows(&self)
        requires
            self.in_step(),
        ensures
            first_cache_len(self.state.layer_states@) == if exists|i: int|
                0 <= i < self.state.layer_states@.len()
                    && #[trigger] self.state.layer_states@[i] is Kv {
                self.state.position as nat
            } else {
                0
            },
    {
        lemma_first_cache(self.state.layer_states@, self.state.position as nat);
    }
}

proof fn lemma_first_cache<T>(states: Seq<LayerState<T>>, n: nat)
    requires
        forall|i: int| 0 <= i < states.len() ==> (#[trigger] states[i]).in_step(n),
    ensures
        first_cache_len(states) == if exists|i: int|
            0 <= i < states.len() && #[trigger] states[i] is Kv {
            n
        } else {
            0
        },
    decreases states.len(),
{
    if states.len() > 0 {
        let rest = states.skip(1);
        assert(states[0].in_step(n));
        assert forall|i: int| 0 <= i < rest.len() implies (#[trigger] rest[i]).in_step(n) by {
            assert(rest[i] == states[i + 1]);
        }
        lemma_first_cache(rest, n);
        if exists|i: int| 0 <= i < states.len() && #[trigger] states[i] is Kv {
            let i = choose|i: int| 0 <= i < states.len() && #[trigger] states[i] is Kv;
            if i > 0 {
                assert(rest[i - 1] is Kv);
            }
        }
        if exists|i: int| 0 <= i < rest.len() && #[trigger] rest[i] is Kv {
            let i = choose|i: int| 0 <= i < rest.len() && #[trigger] rest[i] is Kv;
            assert(states[i + 1] is Kv);
        }
    }
}

} // verus!
