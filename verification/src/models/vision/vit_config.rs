//! ViT configuration files: sizes and class labels of a HuggingFace
//! `config.json`.

use vstd::prelude::*;

use crate::json;
use crate::json::{parse, Json, JsonTree};
use crate::models::vision::vit::ViTConfig;
use crate::text;
use crate::text::parse_usize;
use crate::weights;

verus! {

/// The configuration that a HuggingFace `config.json` describes.
pub open spec fn vit_config_in(tree: JsonTree) -> ViTConfig {
    ViTConfig {
        image_size: tree.size_or("image_size"@, 224),
        patch_size: tree.size_or("patch_size"@, 16),
        channels: tree.size_or("num_channels"@, 3),
        hidden_size: tree.size_or("hidden_size"@, 768),
        num_layers: tree.size_or("num_hidden_layers"@, 12),
        num_heads: tree.size_or("num_attention_heads"@, 12),
        intermediate_size: tree.size_or("intermediate_size"@, 3072),
        num_classes: match tree.field("id2label"@) {
            JsonTree::Object(labels) => labels.len() as usize,
            _ => tree.size_or("num_labels"@, 1000),
        },
    }
}

/// Read a ViT config off a parsed JSON text.
pub fn vit_config_from(v: &Json) -> (r: ViTConfig)
    ensures
        r == vit_config_in(v@),
{
    // Determine num_classes from id2label if available, else fall back to num_labels
    let num_classes = match v.get("id2label") {
        Some(Json::Object(labels)) => labels.len(),
        _ => v.size_or("num_labels", 1000),
    };
    ViTConfig {
        image_size: v.size_or("image_size", 224),
        patch_size: v.size_or("patch_size", 16),
        channels: v.size_or("num_channels", 3),
        hidden_size: v.size_or("hidden_size", 768),
        num_layers: v.size_or("num_hidden_layers", 12),
        num_heads: v.size_or("num_attention_heads", 12),
        intermediate_size: v.size_or("intermediate_size", 3072),
        num_classes,
    }
}

/// Parse a ViT config from a JSON string.
pub fn parse_vit_config_json(json: &str) -> (r: Result<ViTConfig, String>)
    ensures
        match r {
            Ok(config) => json::parsed(json@) matches Ok(tree) && config == vit_config_in(tree),
            Err(e) => json::parsed(json@) == Err::<JsonTree, Seq<char>>(e@),
        },
{
    match parse(json) {
        Ok(v) => Ok(vit_config_from(&v)),
        Err(e) => Err(e),
    }
}

/// The class number and the name that an entry of `id2label` gives.
pub open spec fn label_entry(field: (Seq<char>, JsonTree)) -> Option<(usize, Seq<char>)> {
    match (text::decimal_value(field.0), field.1) {
        (Some(idx), JsonTree::Text(label)) => Some((idx, label)),
        _ => None,
    }
}

/// The entries of `id2label` that give a class number and a name.
pub open spec fn label_entries(fields: Seq<(Seq<char>, JsonTree)>) -> Seq<(usize, Seq<char>)>
    decreases fields.len(),
{
    if fields.len() == 0 {
        Seq::empty()
    } else {
        match label_entry(fields.last()) {
            Some(entry) => label_entries(fields.drop_last()).push(entry),
            None => label_entries(fields.drop_last()),
        }
    }
}

/// The labelled classes of a configuration, in its own order.
pub open spec fn labels_in(tree: JsonTree) -> Seq<(usize, Seq<char>)> {
    match tree.field("id2label"@) {
        JsonTree::Object(fields) => label_entries(fields),
        _ => Seq::empty(),
    }
}

/// The entries of one class, in their order.
pub open spec fn entries_of(entries: Seq<(usize, Seq<char>)>, idx: usize) -> Seq<
    (usize, Seq<char>),
> {
    entries.filter(|e: (usize, Seq<char>)| e.0 == idx)
}

/// Whether `sorted` holds the same entries by class number, those of one class
/// in the order they had.
pub open spec fn is_by_class(
    entries: Seq<(usize, Seq<char>)>,
    sorted: Seq<(usize, Seq<char>)>,
) -> bool {
    &&& forall|i: int, j: int| 0 <= i <= j < sorted.len() ==> sorted[i].0 <= sorted[j].0
    &&& forall|idx: usize| #[trigger] entries_of(sorted, idx) == entries_of(entries, idx)
}

proof fn lemma_none_of_class(entries: Seq<(usize, Seq<char>)>, idx: usize)
    requires
        forall|i: int| 0 <= i < entries.len() ==> (#[trigger] entries[i]).0 != idx,
    ensures
        entries_of(entries, idx) == Seq::<(usize, Seq<char>)>::empty(),
    decreases entries.len(),
{
    reveal(Seq::filter);
    if entries.len() > 0 {
        lemma_none_of_class(entries.drop_last(), idx);
        assert(entries.last() == entries[entries.len() - 1]);
    }
}

/// Putting an entry behind those of its class and of lower classes keeps the
/// order.
proof fn lemma_insert_by_class(
    entries: Seq<(usize, Seq<char>)>,
    sorted: Seq<(usize, Seq<char>)>,
    entry: (usize, Seq<char>),
    at: int,
)
    requires
        is_by_class(entries, sorted),
        0 <= at <= sorted.len(),
        forall|k: int| 0 <= k < at ==> (#[trigger] sorted[k]).0 <= entry.0,
        forall|k: int| at <= k < sorted.len() ==> (#[trigger] sorted[k]).0 > entry.0,
    ensures
        is_by_class(entries.push(entry), sorted.insert(at, entry)),
{
    let front = sorted.take(at);
    let back = sorted.skip(at);
    assert forall|idx: usize| #[trigger]
        entries_of(sorted.insert(at, entry), idx) == entries_of(entries.push(entry), idx) by {
        let p = |e: (usize, Seq<char>)| e.0 == idx;
        assert(sorted =~= front + back);
        assert(sorted.insert(at, entry) =~= front.push(entry) + back);
        Seq::filter_distributes_over_add(front, back, p);
        Seq::filter_distributes_over_add(front.push(entry), back, p);
        assert(entries_of(sorted, idx) == entries_of(entries, idx));
        reveal(Seq::filter);
        assert(front.push(entry).drop_last() =~= front);
        assert(entries.push(entry).drop_last() =~= entries);
        if idx == entry.0 {
            assert forall|i: int| 0 <= i < back.len() implies (#[trigger] back[i]).0 != idx by {
                assert(back[i] == sorted[at + i]);
            }
            lemma_none_of_class(back, idx);
            assert(entries_of(sorted, idx) =~= entries_of(front, idx));
        }
        assert(entries_of(sorted.insert(at, entry), idx) =~= entries_of(
            entries.push(entry),
            idx,
        ));
    }
}

/// Numbered labels as the contracts read them.
pub open spec fn numbered(labels: Seq<(usize, String)>) -> Seq<(usize, Seq<char>)> {
    labels.map_values(|e: (usize, String)| (e.0, e.1@))
}

/// Whether a list of labels is that of a configuration, by class number.
pub open spec fn are_labels(tree: JsonTree, labels: Seq<Seq<char>>) -> bool {
    exists|sorted: Seq<(usize, Seq<char>)>| #[trigger]
        is_by_class(labels_in(tree), sorted) && labels == sorted.map_values(
            |e: (usize, Seq<char>)| e.1,
        )
}

/// Read the class labels off a parsed JSON text.
pub fn vit_labels_from(v: &Json) -> (r: Vec<String>)
    ensures
        are_labels(v@, weights::texts(r@)),
{
    let mut sorted: Vec<(usize, String)> = Vec::new();
    proof {
        let none = Seq::<(usize, Seq<char>)>::empty();
        assert(is_by_class(none, none));
        assert(numbered(sorted@) =~= none);
    }
    if let Some(Json::Object(fields)) = v.get("id2label") {
        let ghost all = v@.field("id2label"@)->Object_0;
        assert(all.take(0) =~= Seq::empty());
        for i in 0..fields.len()
            invariant
                all == Json::Object(*fields)@->Object_0,
                is_by_class(label_entries(all.take(i as int)), numbered(sorted@)),
        {
            let ghost before = numbered(sorted@);
            let ghost seen = label_entries(all.take(i as int));
            let field = &fields[i];
            assert(all[i as int] == (field.0@, field.1@));
            assert(all.take(i + 1).drop_last() =~= all.take(i as int));
            assert(all.take(i + 1).last() == all[i as int]);
            if let Some(idx) = parse_usize(field.0.as_str()) {
                if let Json::Text(label) = &field.1 {
                    let at = place_for(&sorted, idx);
                    let entry = (idx, label.as_str().to_owned());
                    sorted.insert(at, entry);
                    proof {
                        assert(numbered(sorted@) =~= before.insert(at as int, (idx, label@)));
                        lemma_insert_by_class(seen, before, (idx, label@), at as int);
                    }
                }
            }
        }
        assert(all.take(fields@.len() as int) =~= all);
    }
    let mut labels: Vec<String> = Vec::new();
    let ghost by_class = numbered(sorted@);
    for i in 0..sorted.len()
        invariant
            by_class == numbered(sorted@),
            labels@.len() == i,
            forall|k: int| 0 <= k < i ==> (#[trigger] labels@[k])@ == by_class[k].1,
    {
        let label = sorted[i].1.as_str().to_owned();
        assert(by_class[i as int].1 == label@);
        labels.push(label);
    }
    proof {
        let names = by_class.map_values(|e: (usize, Seq<char>)| e.1);
        assert(weights::texts(labels@) =~= names);
        assert(is_by_class(labels_in(v@), by_class));
    }
    labels
}

/// Where an entry of class `idx` goes: behind those of its class and of lower
/// classes.
fn place_for(sorted: &Vec<(usize, String)>, idx: usize) -> (r: usize)
    requires
        forall|i: int, j: int|
            0 <= i <= j < sorted@.len() ==> numbered(sorted@)[i].0 <= numbered(sorted@)[j].0,
    ensures
        r <= sorted@.len(),
        forall|k: int| 0 <= k < r ==> (#[trigger] numbered(sorted@)[k]).0 <= idx,
        forall|k: int| r <= k < sorted@.len() ==> (#[trigger] numbered(sorted@)[k]).0 > idx,
{
    let ghost s = numbered(sorted@);
    let mut at = sorted.len();
    while at > 0 && sorted[at - 1].0 > idx
        invariant
            at <= sorted@.len(),
            s == numbered(sorted@),
            forall|k: int| at <= k < sorted@.len() ==> (#[trigger] s[k]).0 > idx,
        decreases at,
    {
        at -= 1;
        assert(s[at as int].0 == sorted@[at as int].0);
    }
    assert forall|k: int| 0 <= k < at implies (#[trigger] s[k]).0 <= idx by {
        assert(s[at - 1].0 == sorted@[at - 1].0);
        assert(s[k].0 <= s[at - 1].0);
    }
    at
}

/// Extract class labels from a JSON string, ordered by class number.
pub fn parse_vit_labels_json(json: &str) -> (r: Result<Vec<String>, String>)
    ensures
        match r {
            Ok(labels) => json::parsed(json@) matches Ok(tree) && are_labels(
                tree,
                weights::texts(labels@),
            ),
            Err(e) => json::parsed(json@) == Err::<JsonTree, Seq<char>>(e@),
        },
{
    match parse(json) {
        Ok(v) => Ok(vit_labels_from(&v)),
        Err(e) => Err(e),
    }
}

} // verus!
