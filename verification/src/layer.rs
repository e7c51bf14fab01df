use vstd::prelude::*;

verus! {

/// The render layers, drawn in this order: each later layer over the
/// earlier ones.
#[derive(Clone, Copy, PartialEq, Eq, Structural, Debug, Hash)]
pub enum Layer {
    World,
    Ui,
    Debug,
}

/// Position of a layer in drawing order.
pub open spec fn layer_slot(l: Layer) -> nat {
    match l {
        Layer::World => 0,
        Layer::Ui => 1,
        Layer::Debug => 2,
    }
}

impl Default for Layer {
    fn default() -> (l: Layer)
        ensures
            l == Layer::World,
    {
        Layer::World
    }
}

impl Layer {
    /// All layers in drawing order.
    pub fn all() -> (a: [Layer; 3])
        ensures
            a@ == seq![Layer::World, Layer::Ui, Layer::Debug],
    {
        [Layer::World, Layer::Ui, Layer::Debug]
    }

    /// Position of the layer in drawing order: its slot in per-layer arrays.
    pub fn index(self) -> (i: usize)
        ensures
            i == layer_slot(self),
    {
        match self {
            Layer::World => 0,
            Layer::Ui => 1,
            Layer::Debug => 2,
        }
    }

    /// The layer at position `i` of the drawing order, if there is one.
    pub fn from_index(i: usize) -> (l: Option<Layer>)
        ensures
            l matches Some(v) ==> layer_slot(v) == i,
            l is None <==> i >= 3,
    {
        match i {
            0 => Some(Layer::World),
            1 => Some(Layer::Ui),
            2 => Some(Layer::Debug),
            _ => None,
        }
    }

    /// Layers are ordered by drawing order.
    pub fn draws_before(self, other: Layer) -> (b: bool)
        ensures
            b == (layer_slot(self) < layer_slot(other)),
    {
        self.index() < other.index()
    }
}

/// Distinct layers have distinct slots, and `from_index` inverts `index`.
pub proof fn lemma_layer_slots_distinct(a: Layer, b: Layer)
    ensures
        (layer_slot(a) == layer_slot(b)) == (a == b),
        layer_slot(a) < 3,
{
}

/// Identifier of a render layer by its position.
#[derive(Clone, Copy, PartialEq, Eq, Structural, Debug)]
pub struct LayerId(pub usize);

impl LayerId {
    /// The identifier of `layer`.
    pub fn of(layer: Layer) -> (id: LayerId)
        ensures
            id.0 == layer_slot(layer),
    {
        LayerId(layer.index())
    }
}

/// One value per layer, indexed by layer.
#[derive(Clone, Copy, Debug)]
pub struct PerLayer<T> {
    pub layers: [T; 3],
}

impl<T> PerLayer<T> {
    /// The value for `l`.
    pub fn get(&self, l: Layer) -> (r: &T)
        ensures
            *r == self.layers@[layer_slot(l) as int],
    {
        &self.layers[l.index()]
    }

    /// The value for `l`, for changing.
    pub fn get_mut(&mut self, l: Layer) -> (r: &mut T)
        ensures
            *r == old(self).layers@[layer_slot(l) as int],
            final(self).layers@ == old(self).layers@.update(layer_slot(l) as int, *final(r)),
    {
        match l {
            Layer::World => &mut self.layers[0],
            Layer::Ui => &mut self.layers[1],
            Layer::Debug => &mut self.layers[2],
        }
    }
}

} // verus!
