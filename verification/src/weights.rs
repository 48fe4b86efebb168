//! Weight loading: checkpoint tensors by name, the renaming of their keys, and
//! the loop that hands them to a model.

use vstd::prelude::*;
use vstd::string::*;

use crate::buffer::RawTensor;
use crate::ops;
use crate::text;
use crate::text::{decimal, make_indexed_key, str_eq};

verus! {

/// Why a tensor cannot be loaded.
#[derive(Debug)]
pub enum WeightError {
    /// The tensor's dimensions are not those that the model needs.
    ShapeMismatch(String),
    /// The key or the data is not what the model understands.
    InvalidFormat(String),
}

/// A `WeightError` as a value of specifications.
pub enum Refusal {
    ShapeMismatch(Seq<char>),
    InvalidFormat(Seq<char>),
}

impl View for WeightError {
    type V = Refusal;

    open spec fn view(&self) -> Refusal {
        match self {
            WeightError::ShapeMismatch(m) => Refusal::ShapeMismatch(m@),
            WeightError::InvalidFormat(m) => Refusal::InvalidFormat(m@),
        }
    }
}

// ── Dimensions as text ───────────────────────────────────────────────

/// The dimensions from `dims[from]` on, separated by `", "`.
pub open spec fn dims_tail(dims: Seq<usize>, from: nat) -> Seq<char>
    decreases dims.len() - from,
{
    if from >= dims.len() {
        Seq::empty()
    } else {
        (if from > 0 {
            ", "@
        } else {
            Seq::empty()
        }) + text::decimal_digits(dims[from as int] as nat) + dims_tail(dims, from + 1)
    }
}

/// A list of dimensions as it is printed: `[2, 3]`.
pub open spec fn dims_text(dims: Seq<usize>) -> Seq<char> {
    "["@ + dims_tail(dims, 0) + "]"@
}

pub fn format_dims(dims: &[usize]) -> (r: String)
    ensures
        r@ == dims_text(dims@),
{
    let mut out = "[".to_owned();
    let mut i: usize = 0;
    while i < dims.len()
        invariant
            i <= dims@.len(),
            out@ + dims_tail(dims@, i as nat) == "["@ + dims_tail(dims@, 0),
        decreases dims@.len() - i,
    {
        let ghost before = out@;
        if i > 0 {
            out.append(", ");
        }
        let d = decimal(dims[i]);
        out.append(d.as_str());
        assert(out@ + dims_tail(dims@, (i + 1) as nat) =~= before + dims_tail(dims@, i as nat));
        i += 1;
    }
    assert(dims_tail(dims@, i as nat) =~= Seq::<char>::empty());
    assert(out@ =~= "["@ + dims_tail(dims@, 0));
    out.append("]");
    out
}

/// The text of a shape mismatch: `key: expected [..], got [..]`.
pub open spec fn mismatch_text(
    key: Seq<char>,
    expected: Seq<usize>,
    actual: Seq<usize>,
) -> Seq<char> {
    key + ": expected "@ + dims_text(expected) + ", got "@ + dims_text(actual)
}

pub fn format_mismatch(key: &str, expected: &[usize], actual: &[usize]) -> (r: String)
    ensures
        r@ == mismatch_text(key@, expected@, actual@),
{
    let mut out = key.to_owned();
    out.append(": expected ");
    let e = format_dims(expected);
    out.append(e.as_str());
    out.append(", got ");
    let a = format_dims(actual);
    out.append(a.as_str());
    out
}

/// Whether two lists of dimensions are the same.
pub fn same_dims(a: &[usize], b: &[usize]) -> (r: bool)
    ensures
        r == (a@ == b@),
{
    if a.len() != b.len() {
        return false;
    }
    for i in 0..a.len()
        invariant
            a@.len() == b@.len(),
            forall|k: int| 0 <= k < i ==> a@[k] == b@[k],
    {
        if a[i] != b[i] {
            return false;
        }
    }
    assert(a@ =~= b@);
    true
}

// ── Checkpoint tensors ───────────────────────────────────────────────

/// The tensors of a checkpoint, each under a name of its own.
pub struct TensorMap<T> {
    entries: Vec<(String, RawTensor<T>)>,
}

impl<T> TensorMap<T> {
    /// The name of entry `i`.
    pub closed spec fn name(self, i: int) -> Seq<char> {
        self.entries@[i].0@
    }

    /// The tensor of entry `i`.
    pub closed spec fn tensor(self, i: int) -> RawTensor<T> {
        self.entries@[i].1
    }

    /// How many tensors there are.
    pub closed spec fn count(self) -> nat {
        self.entries@.len()
    }

    /// No name occurs twice.
    pub open spec fn wf(self) -> bool {
        forall|i: int, j: int|
            0 <= i < j < self.count() ==> #[trigger] self.name(i) != #[trigger] self.name(j)
    }

    /// Whether some tensor has this name.
    pub open spec fn has(self, name: Seq<char>) -> bool {
        exists|i: int| 0 <= i < self.count() && #[trigger] self.name(i) == name
    }

    /// The tensor of this name.
    pub open spec fn at(self, name: Seq<char>) -> RawTensor<T> {
        self.tensor(choose|i: int| 0 <= i < self.count() && #[trigger] self.name(i) == name)
    }

    /// An empty checkpoint.
    pub fn new() -> (r: Self)
        ensures
            r.wf(),
            r.count() == 0,
            forall|name: Seq<char>| !r.has(name),
    {
        TensorMap { entries: Vec::new() }
    }

    /// How many tensors there are.
    pub fn len(&self) -> (r: usize)
        ensures
            r == self.count(),
    {
        self.entries.len()
    }

    /// The position of `name`, if it is there.
    fn position(&self, name: &str) -> (r: Option<usize>)
        ensures
            match r {
                Some(i) => i < self.count() && self.name(i as int) == name@,
                None => !self.has(name@),
            },
    {
        for i in 0..self.entries.len()
            invariant
                forall|k: int| 0 <= k < i ==> #[trigger] self.name(k) != name@,
        {
            if str_eq(self.entries[i].0.as_str(), name) {
                return Some(i);
            }
        }
        None
    }

    /// Adds a tensor; one of the same name is replaced.
    pub fn insert(&mut self, name: String, tensor: RawTensor<T>)
        requires
            old(self).wf(),
        ensures
            final(self).wf(),
            final(self).has(name@),
            final(self).at(name@) == tensor,
            forall|other: Seq<char>|
                other != name@ ==> #[trigger] final(self).has(other) == old(self).has(other),
            forall|other: Seq<char>|
                other != name@ && #[trigger] old(self).has(other) ==> final(self).at(other) == old(
                    self,
                ).at(other),
            final(self).count() == old(self).count() + if old(self).has(name@) {
                0int
            } else {
                1int
            },
    {
        let ghost before = *self;
        match self.position(name.as_str()) {
            Some(i) => {
                let ghost key = name@;
                self.entries.set(i, (name, tensor));
                proof {
                    let after = *self;
                    assert(before.name(i as int) == key);
                    assert forall|k: int| 0 <= k < after.count() implies #[trigger] after.name(k)
                        == before.name(k) by {}
                    assert(after.name(i as int) == key);
                    after.lemma_at(i as int);
                    assert forall|other: Seq<char>| other != key implies #[trigger] after.has(other)
                        == before.has(other) by {
                        if before.has(other) {
                            let k = choose|k: int|
                                0 <= k < before.count() && #[trigger] before.name(k) == other;
                            assert(after.name(k) == other);
                        }
                        if after.has(other) {
                            let k = choose|k: int|
                                0 <= k < after.count() && #[trigger] after.name(k) == other;
                            assert(before.name(k) == other);
                        }
                    }
                    assert forall|other: Seq<char>| other != key && #[trigger] before.has(
                        other,
                    ) implies after.at(other) == before.at(other) by {
                        let k = choose|k: int|
                            0 <= k < before.count() && #[trigger] before.name(k) == other;
                        assert(after.name(k) == other);
                        after.lemma_at(k);
                        before.lemma_at(k);
                    }
                }
            },
            None => {
                let ghost key = name@;
                self.entries.push((name, tensor));
                proof {
                    let after = *self;
                    let last = before.count() as int;
                    assert forall|k: int| 0 <= k < last implies #[trigger] after.name(k)
                        == before.name(k) by {}
                    assert forall|i: int, j: int| 0 <= i < j < after.count() implies #[trigger] after.name(i)
                        != #[trigger] after.name(j) by {
                        assert(after.name(i) == before.name(i));
                        if j < last {
                            assert(after.name(j) == before.name(j));
                        }
                    }
                    assert(after.name(last) == key);
                    after.lemma_at(last);
                    assert forall|other: Seq<char>| other != key implies #[trigger] after.has(other)
                        == before.has(other) by {
                        if before.has(other) {
                            let k = choose|k: int|
                                0 <= k < before.count() && #[trigger] before.name(k) == other;
                            assert(after.name(k) == other);
                        }
                        if after.has(other) {
                            let k = choose|k: int|
                                0 <= k < after.count() && #[trigger] after.name(k) == other;
                            assert(before.name(k) == other);
                        }
                    }
                    assert forall|other: Seq<char>| other != key && #[trigger] before.has(
                        other,
                    ) implies after.at(other) == before.at(other) by {
                        let k = choose|k: int|
                            0 <= k < before.count() && #[trigger] before.name(k) == other;
                        assert(after.name(k) == other);
                        after.lemma_at(k);
                        before.lemma_at(k);
                    }
                }
            },
        }
    }

    /// The tensor found under a name is the one entered at that name's place.
    pub proof fn lemma_at(self, i: int)
        requires
            self.wf(),
            0 <= i < self.count(),
        ensures
            self.has(self.name(i)),
            self.at(self.name(i)) == self.tensor(i),
    {
        let k = choose|k: int| 0 <= k < self.count() && #[trigger] self.name(k) == self.name(i);
        assert(0 <= k < self.count() && self.name(k) == self.name(i));
        assert(k == i);
    }

    /// Looks a tensor up by name.
    pub fn get(&self, name: &str) -> (r: Option<&RawTensor<T>>)
        requires
            self.wf(),
        ensures
            match r {
                Some(t) => self.has(name@) && *t == self.at(name@),
                None => !self.has(name@),
            },
    {
        match self.position(name) {
            Some(i) => {
                proof {
                    self.lemma_at(i as int);
                }
                Some(&self.entries[i].1)
            },
            None => None,
        }
    }

    /// The name and tensor at position `i`.
    pub fn entry(&self, i: usize) -> (r: (&str, &RawTensor<T>))
        requires
            i < self.count(),
        ensures
            r.0@ == self.name(i as int),
            *r.1 == self.tensor(i as int),
    {
        let e = &self.entries[i];
        (e.0.as_str(), &e.1)
    }
}

// ── Loading ──────────────────────────────────────────────────────────

/// How a checkpoint's keys are renamed: `(source, target)` pairs, and the
/// source keys that no rule covers.
pub struct KeyMapping {
    pub mapping: Vec<(String, String)>,
    pub unmapped: Vec<String>,
}

/// What loading a checkpoint left undone.
pub struct LoadResult {
    /// Keys that the model expects and no tensor delivered.
    pub missing: Vec<String>,
    /// Keys of the checkpoint that the mapping does not cover. A language model
    /// adds those of the tensors that are mapped to a key it does not expect.
    pub unexpected: Vec<String>,
}

/// Where in a model a weight is kept.
pub enum Slot {
    /// A weight of the model itself.
    Top(Seq<char>),
    /// A weight of one layer of a stack of layers.
    Layer(Seq<char>, int, Seq<char>),
}

/// A model that takes its weights one key at a time.
pub trait WeightTarget<T: Copy>: Sized {
    /// What loading leaves as it is: the configuration and the layer layout.
    type Structure;

    spec fn structure(&self) -> Self::Structure;

    /// The slot that a key names.
    spec fn slot(key: Seq<char>) -> Option<Slot>;

    /// The elements kept in a slot; `None` where the model has no such slot.
    spec fn weight(&self, slot: Slot) -> Option<Seq<T>>;

    /// No buffer stands in the slot yet, where the model can do without one.
    spec fn vacant(&self, slot: Slot) -> bool;

    /// The error with which a tensor is turned down.
    spec fn refusal(
        structure: Self::Structure,
        key: Seq<char>,
        shape: Seq<usize>,
    ) -> Option<Refusal>;

    /// What the structure must satisfy for weights to be taken.
    spec fn loadable(structure: Self::Structure) -> bool;

    /// A tensor of `len` elements can be put under a key.
    spec fn fits(structure: Self::Structure, key: Seq<char>, len: nat) -> bool;

    /// The keys that a complete checkpoint delivers.
    spec fn expected(&self) -> Seq<Seq<char>>;

    fn put(&mut self, key: &str, tensor: &RawTensor<T>) -> (r: Result<(), WeightError>)
        requires
            Self::loadable(old(self).structure()),
            Self::fits(old(self).structure(), key@, tensor.data@.len()),
        ensures
            final(self).structure() == old(self).structure(),
            match r {
                Ok(()) => {
                    &&& Self::refusal(old(self).structure(), key@, tensor.shape@) is None
                    &&& forall|s: Slot| #[trigger]
                        final(self).weight(s) == write(
                            old(self).weight(s),
                            Self::slot(key@) == Some(s),
                            tensor.data@,
                        )
                    &&& forall|s: Slot| #[trigger]
                        final(self).vacant(s) == (old(self).vacant(s) && Self::slot(key@) != Some(
                            s,
                        ))
                },
                Err(e) => {
                    &&& Self::refusal(old(self).structure(), key@, tensor.shape@) == Some(e@)
                    &&& forall|s: Slot| #[trigger] final(self).weight(s) == old(self).weight(s)
                    &&& forall|s: Slot| #[trigger] final(self).vacant(s) == old(self).vacant(s)
                },
            },
    ;

    fn expected_keys(&self) -> (r: Vec<String>)
        ensures
            texts(r@) == self.expected(),
    ;
}

/// A slot's elements after a write: an existing slot takes the data.
pub open spec fn write<T>(old: Option<Seq<T>>, hit: bool, data: Seq<T>) -> Option<Seq<T>> {
    if hit && old is Some {
        Some(data)
    } else {
        old
    }
}

/// The characters of each string.
pub open spec fn texts(v: Seq<String>) -> Seq<Seq<char>> {
    v.map_values(|s: String| s@)
}

/// Appends the key of `field` in layer `i` of the stack `prefix`.
pub fn push_key(keys: &mut Vec<String>, prefix: &str, i: usize, field: &str)
    ensures
        texts(final(keys)@) == texts(old(keys)@).push(
            text::indexed_key(prefix@, i as nat, field@),
        ),
{
    let k = make_indexed_key(prefix, i, field);
    keys.push(k);
    assert(texts(keys@) =~= texts(old(keys)@).push(
        text::indexed_key(prefix@, i as nat, field@),
    ));
}

/// The data of the last of the first `n` mapped tensors that goes to `slot`.
pub open spec fn last_delivered<T: Copy, M: WeightTarget<T>>(
    weights: TensorMap<T>,
    mapping: Seq<(String, String)>,
    n: nat,
    slot: Slot,
) -> Option<Seq<T>>
    decreases n,
{
    if n == 0 {
        None
    } else {
        let pair = mapping[n - 1];
        if weights.has(pair.0@) && M::slot(pair.1@) == Some(slot) {
            Some(weights.at(pair.0@).data@)
        } else {
            last_delivered::<T, M>(weights, mapping, (n - 1) as nat, slot)
        }
    }
}

/// A slot's elements after the first `n` mapped tensors.
pub open spec fn after_loading<T: Copy, M: WeightTarget<T>>(
    model: M,
    weights: TensorMap<T>,
    mapping: Seq<(String, String)>,
    n: nat,
    slot: Slot,
) -> Option<Seq<T>> {
    match (model.weight(slot), last_delivered::<T, M>(weights, mapping, n, slot)) {
        (Some(_), Some(data)) => Some(data),
        (kept, _) => kept,
    }
}

/// Whether a slot is still without a buffer after the first `n` mapped tensors.
pub open spec fn vacant_after<T: Copy, M: WeightTarget<T>>(
    model: M,
    weights: TensorMap<T>,
    mapping: Seq<(String, String)>,
    n: nat,
    slot: Slot,
) -> bool {
    model.vacant(slot) && last_delivered::<T, M>(weights, mapping, n, slot) is None
}

/// Whether one of the first `n` mapped tensors is present and named `target`.
pub open spec fn delivered<T>(
    weights: TensorMap<T>,
    mapping: Seq<(String, String)>,
    n: int,
    target: Seq<char>,
) -> bool {
    exists|j: int|
        0 <= j < n && weights.has((#[trigger] mapping[j]).0@) && mapping[j].1@ == target
}

/// The error that the tensor of pair `j` meets, if it is present.
pub open spec fn pair_refusal<T: Copy, M: WeightTarget<T>>(
    model: M,
    weights: TensorMap<T>,
    mapping: Seq<(String, String)>,
    j: int,
) -> Option<Refusal> {
    if weights.has(mapping[j].0@) {
        M::refusal(model.structure(), mapping[j].1@, weights.at(mapping[j].0@).shape@)
    } else {
        None
    }
}

/// How many elements a tensor of these dimensions has.
pub open spec fn volume(shape: Seq<usize>) -> int
    decreases shape.len(),
{
    if shape.len() == 0 {
        1
    } else {
        volume(shape.drop_last()) * shape.last()
    }
}

/// The sources of the tensors that are present and mapped to none of the
/// `expected` keys, in the order of the mapping.
pub open spec fn sources_beyond<T>(
    weights: TensorMap<T>,
    pairs: Seq<(String, String)>,
    expected: Seq<Seq<char>>,
) -> Seq<Seq<char>> {
    pairs.filter(|p: (String, String)| weights.has(p.0@) && !expected.contains(p.1@)).map_values(
        |p: (String, String)| p.0@,
    )
}

/// What loading the tensors of a mapping does to a model.
///
/// Where no tensor is turned down, each slot holds the data of the last tensor
/// that goes to it, and the missing keys are the expected ones that no tensor
/// delivers. Otherwise the error is that of the first tensor turned down, and
/// the tensors before it have been taken.
pub open spec fn tensors_loaded<T: Copy, M: WeightTarget<T>>(
    before: M,
    after: M,
    weights: TensorMap<T>,
    pairs: Seq<(String, String)>,
    r: Result<LoadResult, WeightError>,
) -> bool {
    match r {
        Ok(result) => {
            &&& forall|j: int|
                0 <= j < pairs.len() ==> #[trigger] pair_refusal::<T, M>(
                    before,
                    weights,
                    pairs,
                    j,
                ) is None
            &&& forall|s: Slot| #[trigger]
                after.weight(s) == after_loading(before, weights, pairs, pairs.len(), s)
            &&& forall|s: Slot| #[trigger]
                after.vacant(s) == vacant_after(before, weights, pairs, pairs.len(), s)
            &&& texts(result.missing@) == before.expected().filter(
                |k: Seq<char>| !delivered(weights, pairs, pairs.len() as int, k),
            )
        },
        Err(e) => exists|j: int|
            {
                &&& 0 <= j < pairs.len()
                &&& #[trigger] pair_refusal::<T, M>(before, weights, pairs, j) == Some(e@)
                &&& forall|i: int|
                    0 <= i < j ==> #[trigger] pair_refusal::<T, M>(
                        before,
                        weights,
                        pairs,
                        i,
                    ) is None
                &&& forall|s: Slot| #[trigger]
                    after.weight(s) == after_loading(before, weights, pairs, j as nat, s)
                &&& forall|s: Slot| #[trigger]
                    after.vacant(s) == vacant_after(before, weights, pairs, j as nat, s)
            },
    }
}

/// What loading a checkpoint does to a model, and what it returns: the source
/// keys that no rule of the mapping covers are unexpected.
pub open spec fn loaded_as<T: Copy, M: WeightTarget<T>>(
    before: M,
    after: M,
    weights: TensorMap<T>,
    mapping: KeyMapping,
    r: Result<LoadResult, WeightError>,
) -> bool {
    &&& tensors_loaded(before, after, weights, mapping.mapping@, r)
    &&& r is Ok ==> r->Ok_0.unexpected == mapping.unmapped
}

/// Every tensor of the mapping can be put where it goes.
pub open spec fn all_fit<T: Copy, M: WeightTarget<T>>(
    model: M,
    weights: TensorMap<T>,
    pairs: Seq<(String, String)>,
) -> bool {
    forall|j: int|
        0 <= j < pairs.len() && weights.has(pairs[j].0@) ==> M::fits(
            model.structure(),
            (#[trigger] pairs[j]).1@,
            weights.at(pairs[j].0@).data@.len(),
        )
}

/// Hands every mapped tensor to the model, in the order of the mapping, and
/// stops at the first that the model turns down.
pub fn load_mapped<T: Copy, M: WeightTarget<T>>(
    model: &mut M,
    weights: &TensorMap<T>,
    mapping: KeyMapping,
) -> (r: Result<LoadResult, WeightError>)
    requires
        weights.wf(),
        M::loadable(old(model).structure()),
        all_fit(*old(model), *weights, mapping.mapping@),
    ensures
        final(model).structure() == old(model).structure(),
        loaded_as(*old(model), *final(model), *weights, mapping, r),
{
    let ghost start = *model;
    let expected = model.expected_keys();
    let pairs = &mapping.mapping;
    for i in 0..pairs.len()
        invariant
            weights.wf(),
            pairs@ == mapping.mapping@,
            start == *old(model),
            M::loadable(start.structure()),
            all_fit(start, *weights, pairs@),
            model.structure() == start.structure(),
            forall|j: int|
                0 <= j < i ==> #[trigger] pair_refusal::<T, M>(start, *weights, pairs@, j) is None,
            forall|s: Slot| #[trigger]
                model.weight(s) == after_loading(start, *weights, pairs@, i as nat, s),
            forall|s: Slot| #[trigger]
                model.vacant(s) == vacant_after(start, *weights, pairs@, i as nat, s),
    {
        let source = &pairs[i].0;
        let target = &pairs[i].1;
        assert(weights.has(pairs@[i as int].0@) ==> M::fits(
            start.structure(),
            pairs@[i as int].1@,
            weights.at(pairs@[i as int].0@).data@.len(),
        ));
        match weights.get(source.as_str()) {
            Some(raw) => {
                let ghost before = *model;
                match model.put(target.as_str(), raw) {
                    Ok(()) => {
                        assert(pair_refusal::<T, M>(start, *weights, pairs@, i as int) is None);
                        assert forall|s: Slot| #[trigger] model.weight(s) == after_loading(
                            start,
                            *weights,
                            pairs@,
                            (i + 1) as nat,
                            s,
                        ) by {
                            assert(before.weight(s) == after_loading(
                                start,
                                *weights,
                                pairs@,
                                i as nat,
                                s,
                            ));
                        }
                        assert forall|s: Slot| #[trigger] model.vacant(s) == vacant_after(
                            start,
                            *weights,
                            pairs@,
                            (i + 1) as nat,
                            s,
                        ) by {
                            assert(before.vacant(s) == vacant_after(
                                start,
                                *weights,
                                pairs@,
                                i as nat,
                                s,
                            ));
                        }
                    },
                    Err(e) => {
                        assert forall|s: Slot| #[trigger] model.weight(s) == after_loading(
                            start,
                            *weights,
                            pairs@,
                            i as nat,
                            s,
                        ) by {
                            assert(before.weight(s) == after_loading(
                                start,
                                *weights,
                                pairs@,
                                i as nat,
                                s,
                            ));
                        }
                        assert forall|s: Slot| #[trigger] model.vacant(s) == vacant_after(
                            start,
                            *weights,
                            pairs@,
                            i as nat,
                            s,
                        ) by {
                            assert(before.vacant(s) == vacant_after(
                                start,
                                *weights,
                                pairs@,
                                i as nat,
                                s,
                            ));
                        }
                        assert(pair_refusal::<T, M>(start, *weights, pairs@, i as int) == Some(e@));
                        return Err(e);
                    },
                }
            },
            None => {
                assert(pair_refusal::<T, M>(start, *weights, pairs@, i as int) is None);
                assert forall|s: Slot| #[trigger] model.weight(s) == after_loading(
                    start,
                    *weights,
                    pairs@,
                    (i + 1) as nat,
                    s,
                ) by {}
            },
        }
    }
    let missing = keys_not_delivered(expected, weights, pairs);
    Ok(LoadResult { missing, unexpected: mapping.unmapped })
}

/// A tensor is turned down only under a key that leads nowhere.
pub open spec fn refuses_only_unknown<T: Copy, M: WeightTarget<T>>(
    structure: M::Structure,
) -> bool {
    forall|key: Seq<char>, shape: Seq<usize>|
        (#[trigger] M::refusal(structure, key, shape)) is Some ==> M::slot(key) is None
}

/// Hands every mapped tensor to the model, in the order of the mapping. A
/// tensor that the model turns down is passed over.
pub fn load_tolerant<T: Copy, M: WeightTarget<T>>(
    model: &mut M,
    weights: &TensorMap<T>,
    mapping: KeyMapping,
) -> (r: LoadResult)
    requires
        weights.wf(),
        M::loadable(old(model).structure()),
        refuses_only_unknown::<T, M>(old(model).structure()),
        all_fit(*old(model), *weights, mapping.mapping@),
    ensures
        final(model).structure() == old(model).structure(),
        forall|s: Slot| #[trigger]
            final(model).weight(s) == after_loading(
                *old(model),
                *weights,
                mapping.mapping@,
                mapping.mapping@.len(),
                s,
            ),
        forall|s: Slot| #[trigger]
            final(model).vacant(s) == vacant_after(
                *old(model),
                *weights,
                mapping.mapping@,
                mapping.mapping@.len(),
                s,
            ),
        texts(r.missing@) == old(model).expected().filter(
            |k: Seq<char>|
                !delivered(*weights, mapping.mapping@, mapping.mapping@.len() as int, k),
        ),
        r.unexpected == mapping.unmapped,
{
    let ghost start = *model;
    let expected = model.expected_keys();
    let pairs = &mapping.mapping;
    for i in 0..pairs.len()
        invariant
            weights.wf(),
            pairs@ == mapping.mapping@,
            M::loadable(start.structure()),
            refuses_only_unknown::<T, M>(start.structure()),
            all_fit(start, *weights, pairs@),
            model.structure() == start.structure(),
            forall|s: Slot| #[trigger]
                model.weight(s) == after_loading(start, *weights, pairs@, i as nat, s),
            forall|s: Slot| #[trigger]
                model.vacant(s) == vacant_after(start, *weights, pairs@, i as nat, s),
    {
        let source = &pairs[i].0;
        let target = &pairs[i].1;
        assert(weights.has(pairs@[i as int].0@) ==> M::fits(
            start.structure(),
            pairs@[i as int].1@,
            weights.at(pairs@[i as int].0@).data@.len(),
        ));
        let ghost before = *model;
        if let Some(raw) = weights.get(source.as_str()) {
            let put = model.put(target.as_str(), raw);
            assert(put is Err ==> M::refusal(start.structure(), target@, raw.shape@) is Some);
        }
        assert forall|s: Slot| #[trigger] model.weight(s) == after_loading(
            start,
            *weights,
            pairs@,
            (i + 1) as nat,
            s,
        ) by {
            assert(before.weight(s) == after_loading(start, *weights, pairs@, i as nat, s));
        }
        assert forall|s: Slot| #[trigger] model.vacant(s) == vacant_after(
            start,
            *weights,
            pairs@,
            (i + 1) as nat,
            s,
        ) by {
            assert(before.vacant(s) == vacant_after(start, *weights, pairs@, i as nat, s));
        }
    }
    let missing = keys_not_delivered(expected, weights, pairs);
    LoadResult { missing, unexpected: mapping.unmapped }
}

/// The expected keys that no present tensor of the mapping delivers.
pub fn keys_not_delivered<T>(
    expected: Vec<String>,
    weights: &TensorMap<T>,
    pairs: &Vec<(String, String)>,
) -> (r: Vec<String>)
    requires
        weights.wf(),
    ensures
        texts(r@) == texts(expected@).filter(
            |k: Seq<char>| !delivered(*weights, pairs@, pairs@.len() as int, k),
        ),
{
    let ghost absent = |k: Seq<char>| !delivered(*weights, pairs@, pairs@.len() as int, k);
    let mut missing: Vec<String> = Vec::new();
    for i in 0..expected.len()
        invariant
            weights.wf(),
            absent == (|k: Seq<char>| !delivered(*weights, pairs@, pairs@.len() as int, k)),
            texts(missing@) == texts(expected@).take(i as int).filter(absent),
    {
        let key = &expected[i];
        let mut found = false;
        for j in 0..pairs.len()
            invariant
                weights.wf(),
                found == delivered(*weights, pairs@, j as int, key@),
        {
            let hit = str_eq(pairs[j].1.as_str(), key.as_str()) && weights.get(
                pairs[j].0.as_str(),
            ).is_some();
            proof {
                if delivered(*weights, pairs@, j as int, key@) {
                    let w = choose|w: int|
                        0 <= w < j && weights.has((#[trigger] pairs@[w]).0@) && pairs@[w].1@
                            == key@;
                    assert(delivered(*weights, pairs@, j + 1, key@)) by {
                        assert(weights.has(pairs@[w].0@));
                    }
                }
                if hit {
                    assert(weights.has(pairs@[j as int].0@));
                }
            }
            found = found || hit;
        }
        proof {
            let all = texts(expected@);
            assert(all.take(i + 1) =~= all.take(i as int).push(key@));
            all.take(i as int).lemma_filter_push(key@, absent);
        }
        if !found {
            missing.push(key.clone());
            assert(texts(missing@) =~= texts(expected@).take(i as int).filter(absent).push(key@));
        }
    }
    assert(texts(expected@).take(expected@.len() as int) =~= texts(expected@));
    missing
}

/// Whether a list holds a string.
fn holds(keys: &Vec<String>, key: &str) -> (r: bool)
    ensures
        r == texts(keys@).contains(key@),
{
    for i in 0..keys.len()
        invariant
            forall|j: int| 0 <= j < i ==> #[trigger] texts(keys@)[j] != key@,
    {
        if str_eq(keys[i].as_str(), key) {
            assert(texts(keys@)[i as int] == key@);
            return true;
        }
    }
    false
}

/// Adds to a list the sources of the tensors that are present and mapped to
/// none of the `expected` keys.
pub fn push_sources_beyond<T>(
    list: &mut Vec<String>,
    weights: &TensorMap<T>,
    pairs: &Vec<(String, String)>,
    expected: &Vec<String>,
)
    requires
        weights.wf(),
    ensures
        texts(final(list)@) == texts(old(list)@) + sources_beyond(
            *weights,
            pairs@,
            texts(expected@),
        ),
{
    let ghost before = texts(list@);
    let ghost beyond = |p: (String, String)|
        weights.has(p.0@) && !texts(expected@).contains(p.1@);
    let ghost source = |p: (String, String)| p.0@;
    assert(pairs@.take(0).filter(beyond).map_values(source) =~= Seq::empty()) by {
        reveal(Seq::filter);
    }
    for i in 0..pairs.len()
        invariant
            weights.wf(),
            beyond == (|p: (String, String)|
                weights.has(p.0@) && !texts(expected@).contains(p.1@)),
            source == (|p: (String, String)| p.0@),
            texts(list@) == before + pairs@.take(i as int).filter(beyond).map_values(source),
    {
        let pair = &pairs[i];
        let ghost held = list@;
        let ghost kept = pairs@.take(i as int).filter(beyond);
        proof {
            assert(pairs@.take(i + 1) =~= pairs@.take(i as int).push(*pair));
            pairs@.take(i as int).lemma_filter_push(*pair, beyond);
        }
        if weights.get(pair.0.as_str()).is_some() && !holds(expected, pair.1.as_str()) {
            assert(beyond(*pair));
            let name = pair.0.as_str().to_owned();
            list.push(name);
            assert(texts(list@) =~= texts(held).push(pair.0@));
            assert(kept.push(*pair).map_values(source) =~= kept.map_values(source).push(pair.0@));
            assert(texts(list@) =~= before + kept.push(*pair).map_values(source));
        } else {
            assert(!beyond(*pair));
        }
    }
    assert(pairs@.take(pairs@.len() as int) =~= pairs@);
}

// ── Keys that lead to weights ────────────────────────────────────────

/// A key names a weight that the model has.
pub open spec fn leads_to_weight<T: Copy, M: WeightTarget<T>>(model: M, key: Seq<char>) -> bool {
    match M::slot(key) {
        Some(s) => model.weight(s) is Some,
        None => false,
    }
}

/// Each of the keys names a weight that the model has.
pub open spec fn all_lead<T: Copy, M: WeightTarget<T>>(model: M, keys: Seq<Seq<char>>) -> bool {
    forall|i: int| 0 <= i < keys.len() ==> leads_to_weight::<T, M>(model, #[trigger] keys[i])
}

/// Every tensor of a checkpoint has as many elements as its dimensions say.
pub open spec fn consistent<T>(weights: TensorMap<T>) -> bool {
    forall|name: Seq<char>| #[trigger]
        weights.has(name) ==> weights.at(name).data@.len() == volume(weights.at(name).shape@)
}

/// A key that a present tensor is mapped to delivers its slot.
pub proof fn lemma_delivered_found<T: Copy, M: WeightTarget<T>>(
    weights: TensorMap<T>,
    pairs: Seq<(String, String)>,
    n: nat,
    key: Seq<char>,
    slot: Slot,
)
    requires
        delivered(weights, pairs, n as int, key),
        M::slot(key) == Some(slot),
    ensures
        last_delivered::<T, M>(weights, pairs, n, slot) is Some,
    decreases n,
{
    let j = choose|j: int|
        0 <= j < n && weights.has((#[trigger] pairs[j]).0@) && pairs[j].1@ == key;
    if j < n - 1 {
        assert(delivered(weights, pairs, n - 1, key)) by {
            assert(weights.has(pairs[j].0@));
        }
        lemma_delivered_found::<T, M>(weights, pairs, (n - 1) as nat, key, slot);
    }
}

/// Where nothing is missing, every expected key is delivered.
pub proof fn lemma_nothing_missing(
    expected: Seq<Seq<char>>,
    absent: spec_fn(Seq<char>) -> bool,
    i: int,
)
    requires
        expected.filter(absent).len() == 0,
        0 <= i < expected.len(),
    ensures
        !absent(expected[i]),
{
    if absent(expected[i]) {
        expected.lemma_filter_contains(absent, i);
    }
}

/// What a block holds stands among the blocks.
pub proof fn lemma_in_blocks(n: nat, f: spec_fn(int) -> Seq<Seq<char>>, i: int, j: int)
    requires
        0 <= i < n,
        0 <= j < f(i).len(),
    ensures
        ops::blocks(n, f).contains(f(i)[j]),
    decreases n,
{
    let before = ops::blocks((n - 1) as nat, f);
    let all = ops::blocks(n, f);
    if i < n - 1 {
        lemma_in_blocks((n - 1) as nat, f, i, j);
        let k = choose|k: int| 0 <= k < before.len() && before[k] == f(i)[j];
        assert(all[k] == f(i)[j]);
    } else {
        assert(all[before.len() + j] == f(i)[j]);
    }
}

/// Vectors and matrices have the elements of their dimensions.
pub proof fn lemma_volumes(a: usize, b: usize)
    ensures
        volume(seq![a]) == a,
        volume(seq![a, b]) == a * b,
{
    assert(seq![a].drop_last() =~= Seq::empty());
    assert(seq![a, b].drop_last() =~= seq![a]);
    assert(volume(Seq::empty()) == 1);
    assert(volume(seq![a]) == 1 * a);
}

/// Two lists of keys that lead to weights make one.
pub proof fn lemma_lists_lead<T: Copy, M: WeightTarget<T>>(
    model: M,
    a: Seq<Seq<char>>,
    b: Seq<Seq<char>>,
)
    requires
        all_lead::<T, M>(model, a),
        all_lead::<T, M>(model, b),
    ensures
        all_lead::<T, M>(model, a + b),
{
    let keys = a + b;
    assert forall|i: int| 0 <= i < keys.len() implies leads_to_weight::<T, M>(
        model,
        #[trigger] keys[i],
    ) by {
        if i < a.len() {
            assert(keys[i] == a[i]);
        } else {
            assert(keys[i] == b[i - a.len()]);
        }
    }
}

/// Blocks of keys that lead to weights, one after the other, do too.
pub proof fn lemma_blocks_lead<T: Copy, M: WeightTarget<T>>(
    model: M,
    n: nat,
    f: spec_fn(int) -> Seq<Seq<char>>,
)
    requires
        forall|i: int| 0 <= i < n ==> all_lead::<T, M>(model, #[trigger] f(i)),
    ensures
        all_lead::<T, M>(model, ops::blocks(n, f)),
    decreases n,
{
    if n > 0 {
        lemma_blocks_lead::<T, M>(model, (n - 1) as nat, f);
        lemma_lists_lead::<T, M>(model, ops::blocks((n - 1) as nat, f), f(n - 1));
    }
}

// ── Laws ─────────────────────────────────────────────────────────────

/// A checkpoint that delivers every expected key leaves nothing missing.
pub proof fn lemma_complete_checkpoint<T: Copy, M: WeightTarget<T>>(
    before: M,
    after: M,
    weights: TensorMap<T>,
    mapping: KeyMapping,
    result: LoadResult,
)
    requires
        tensors_loaded(before, after, weights, mapping.mapping@, Ok(result)),
        forall|i: int|
            0 <= i < before.expected().len() ==> delivered(
                weights,
                mapping.mapping@,
                mapping.mapping@.len() as int,
                #[trigger] before.expected()[i],
            ),
    ensures
        result.missing@.len() == 0,
{
    let absent = |k: Seq<char>|
        !delivered(weights, mapping.mapping@, mapping.mapping@.len() as int, k);
    let kept = before.expected().filter(absent);
    assert(texts(result.missing@) == kept);
    if kept.len() > 0 {
        before.expected().lemma_filter_contains_rev(absent, kept[0]);
        let i = choose|i: int|
            0 <= i < before.expected().len() && before.expected()[i] == kept[0];
        before.expected().lemma_filter_pred(absent, 0);
        assert(delivered(
            weights,
            mapping.mapping@,
            mapping.mapping@.len() as int,
            before.expected()[i],
        ));
    }
    assert(texts(result.missing@).len() == result.missing@.len());
}

/// A slot that no tensor of the checkpoint goes to keeps what it held.
pub proof fn lemma_untouched_slot<T: Copy, M: WeightTarget<T>>(
    before: M,
    after: M,
    weights: TensorMap<T>,
    mapping: KeyMapping,
    result: LoadResult,
    slot: Slot,
)
    requires
        tensors_loaded(before, after, weights, mapping.mapping@, Ok(result)),
        forall|j: int|
            0 <= j < mapping.mapping@.len() ==> !(weights.has((#[trigger] mapping.mapping@[j]).0@)
                && M::slot(mapping.mapping@[j].1@) == Some(slot)),
    ensures
        after.weight(slot) == before.weight(slot),
{
    lemma_nothing_delivered::<T, M>(weights, mapping.mapping@, mapping.mapping@.len(), slot);
}

proof fn lemma_nothing_delivered<T: Copy, M: WeightTarget<T>>(
    weights: TensorMap<T>,
    mapping: Seq<(String, String)>,
    n: nat,
    slot: Slot,
)
    requires
        n <= mapping.len(),
        forall|j: int|
            0 <= j < n ==> !(weights.has((#[trigger] mapping[j]).0@) && M::slot(mapping[j].1@)
                == Some(slot)),
    ensures
        last_delivered::<T, M>(weights, mapping, n, slot) is None,
    decreases n,
{
    if n > 0 {
        lemma_nothing_delivered::<T, M>(weights, mapping, (n - 1) as nat, slot);
    }
}

/// The tensor of pair `j` ends up in its slot, if the model has that slot and
/// no later tensor goes there.
pub proof fn lemma_last_tensor_kept<T: Copy, M: WeightTarget<T>>(
    before: M,
    after: M,
    weights: TensorMap<T>,
    mapping: KeyMapping,
    result: LoadResult,
    j: int,
    slot: Slot,
)
    requires
        tensors_loaded(before, after, weights, mapping.mapping@, Ok(result)),
        0 <= j < mapping.mapping@.len(),
        weights.has(mapping.mapping@[j].0@),
        M::slot(mapping.mapping@[j].1@) == Some(slot),
        before.weight(slot) is Some,
        forall|k: int|
            j < k < mapping.mapping@.len() ==> !(weights.has((#[trigger] mapping.mapping@[k]).0@)
                && M::slot(mapping.mapping@[k].1@) == Some(slot)),
    ensures
        after.weight(slot) == Some(weights.at(mapping.mapping@[j].0@).data@),
{
    lemma_last_delivered_is::<T, M>(weights, mapping.mapping@, mapping.mapping@.len(), j, slot);
}

proof fn lemma_last_delivered_is<T: Copy, M: WeightTarget<T>>(
    weights: TensorMap<T>,
    mapping: Seq<(String, String)>,
    n: nat,
    j: int,
    slot: Slot,
)
    requires
        0 <= j < n <= mapping.len(),
        weights.has(mapping[j].0@),
        M::slot(mapping[j].1@) == Some(slot),
        forall|k: int|
            j < k < n ==> !(weights.has((#[trigger] mapping[k]).0@) && M::slot(mapping[k].1@)
                == Some(slot)),
    ensures
        last_delivered::<T, M>(weights, mapping, n, slot) == Some(
            weights.at(mapping[j].0@).data@,
        ),
    decreases n,
{
    if n - 1 > j {
        lemma_last_delivered_is::<T, M>(weights, mapping, (n - 1) as nat, j, slot);
    }
}

} // verus!
