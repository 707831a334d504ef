//! Layers: tables from key to usage code that stand in for `Identity`.

use crate::lex::{Key, Pressed, KEY_COUNT};
use vstd::prelude::*;

verus! {

/// One layer of the layout: a usage code for every key, at the key's place
/// in the table.
#[derive(Debug, Clone, Copy)]
pub struct Layer {
    /// The key that selects the layer when it begins a chord of several
    /// keys. A layer without such a key is a base layer: it serves every
    /// chord.
    pub key: Option<Key>,
    /// The code of each key; `NO_EVENT` for a key that puts out nothing.
    pub codes: [u8; KEY_COUNT],
}

impl Layer {
    /// The layer serves the chord of `keys`, which is not empty: it is a
    /// base layer, or its key began the chord and the chord has more keys.
    pub open spec fn serves(self, keys: Seq<Pressed>) -> bool {
        match self.key {
            None => true,
            Some(key) => keys.len() > 1 && keys[0].0 == key,
        }
    }

    /// What the layer maps `key` to.
    pub open spec fn code_of(self, key: Key) -> u8 {
        self.codes@[key.ordinal() as int]
    }
}

/// The first layer from index `from` on that serves the chord of `keys`.
pub open spec fn layer_from(layers: Seq<Layer>, keys: Seq<Pressed>, from: int) -> Option<Layer>
    decreases layers.len() - from,
{
    if from < 0 || from >= layers.len() {
        None
    } else if layers[from].serves(keys) {
        Some(layers[from])
    } else {
        layer_from(layers, keys, from + 1)
    }
}

/// The layer of the chord of `keys`: the first in the table that serves it.
pub open spec fn layer_of(layers: Seq<Layer>, keys: Seq<Pressed>) -> Option<Layer> {
    layer_from(layers, keys, 0)
}

/// What the layers map the chord of `keys` to: the code that the chord's
/// layer has for the chord's last key; nothing where no layer serves the
/// chord.
pub open spec fn layer_code(layers: Seq<Layer>, keys: Seq<Pressed>) -> Option<u8> {
    match layer_of(layers, keys) {
        Some(layer) => Some(layer.code_of(keys.last().0)),
        None => None,
    }
}

/// First layer wins: a layer that serves the chord, with no layer before it
/// that does, gives the code.
pub proof fn lemma_first_layer_wins(layers: Seq<Layer>, keys: Seq<Pressed>, i: int)
    requires
        0 <= i < layers.len(),
        layers[i].serves(keys),
        forall|j: int| 0 <= j < i ==> !(#[trigger] layers[j]).serves(keys),
    ensures
        layer_of(layers, keys) == Some(layers[i]),
        layer_code(layers, keys) == Some(layers[i].code_of(keys.last().0)),
{
    lemma_layer_skips(layers, keys, 0, i);
}

/// Where a base layer is in the table, the mapping is total: every chord has
/// a code.
pub proof fn lemma_base_layer_is_total(layers: Seq<Layer>, keys: Seq<Pressed>, i: int)
    requires
        0 <= i < layers.len(),
        layers[i].key is None,
    ensures
        layer_code(layers, keys) is Some,
{
    lemma_layer_found(layers, keys, 0, i);
}

/// A chord of one key is served by base layers only, whichever key it is.
pub proof fn lemma_single_key_takes_base_layer(layers: Seq<Layer>, keys: Seq<Pressed>)
    requires
        keys.len() == 1,
    ensures
        layer_of(layers, keys) matches Some(layer) ==> layer.key is None,
{
    lemma_layer_serves(layers, keys, 0);
}

/// Without layers no chord has a code.
pub proof fn lemma_no_layers(keys: Seq<Pressed>)
    ensures
        layer_code(Seq::<Layer>::empty(), keys) is None,
{
}

proof fn lemma_layer_skips(layers: Seq<Layer>, keys: Seq<Pressed>, from: int, to: int)
    requires
        0 <= from <= to <= layers.len(),
        forall|j: int| from <= j < to ==> !(#[trigger] layers[j]).serves(keys),
    ensures
        layer_from(layers, keys, from) == layer_from(layers, keys, to),
    decreases to - from,
{
    if from < to {
        lemma_layer_skips(layers, keys, from + 1, to);
    }
}

proof fn lemma_layer_found(layers: Seq<Layer>, keys: Seq<Pressed>, from: int, i: int)
    requires
        0 <= from <= i < layers.len(),
        layers[i].serves(keys),
    ensures
        layer_from(layers, keys, from) is Some,
    decreases i - from,
{
    if !layers[from].serves(keys) {
        lemma_layer_found(layers, keys, from + 1, i);
    }
}

proof fn lemma_layer_serves(layers: Seq<Layer>, keys: Seq<Pressed>, from: int)
    requires
        0 <= from,
    ensures
        layer_from(layers, keys, from) matches Some(layer) ==> layer.serves(keys),
    decreases layers.len() - from,
{
    if from < layers.len() && !layers[from].serves(keys) {
        lemma_layer_serves(layers, keys, from + 1);
    }
}

/// Looks the chord of `keys` up in the layers.
pub fn lookup<const LAYERS: usize>(
    layers: &[Layer; LAYERS],
    keys: &[Pressed],
) -> (code: Option<u8>)
    requires
        keys@.len() > 0,
    ensures
        code == layer_code(layers@, keys@),
{
    let Pressed(first) = keys[0];
    let Pressed(last) = keys[keys.len() - 1];
    let mut i: usize = 0;
    while i < LAYERS
        invariant
            i <= LAYERS,
            layers@.len() == LAYERS,
            keys@.len() > 0,
            first == keys@[0].0,
            last == keys@.last().0,
            layer_of(layers@, keys@) == layer_from(layers@, keys@, i as int),
        decreases LAYERS - i,
    {
        let serves = match layers[i].key {
            None => true,
            Some(key) => keys.len() > 1 && first == key,
        };
        if serves {
            return Some(layers[i].codes[last.index()]);
        }
        i += 1;
    }
    None
}

} // verus!
