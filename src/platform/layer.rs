use vstd::prelude::*;

verus! {

/// A slice of the application that is attached to and detached from a
/// `LayerStack`, and updated each frame.
pub trait Layer {
    /// The identity a stack finds this layer by.
    spec fn spec_id(&self) -> u32;

    fn on_attach(&self);

    fn on_detach(&self);

    fn on_update(&self);

    fn id(&self) -> (r: u32)
        ensures
            r == self.spec_id(),
    ;

    fn debug_name(&self) -> &str;
}

/// Layers below a boundary, overlays above it: a new layer goes on top of the
/// layers and under every overlay, a new overlay on top of everything.
pub struct LayerStack<L> {
    layers: Vec<L>,
    layer_boundary_idx: usize,
}

impl<L: Layer> LayerStack<L> {
    /// All entries, bottom first: the layers, then the overlays.
    pub closed spec fn entries(&self) -> Seq<L> {
        self.layers@
    }

    /// How many of the entries are layers.
    pub closed spec fn boundary(&self) -> nat {
        self.layer_boundary_idx as nat
    }

    pub open spec fn wf(&self) -> bool {
        self.boundary() <= self.entries().len()
    }

    pub fn new() -> (r: Self)
        ensures
            r.wf(),
            r.entries() == Seq::<L>::empty(),
            r.boundary() == 0,
    {
        LayerStack { layers: Vec::new(), layer_boundary_idx: 0 }
    }

    /// Attaches `layer` and places it above the other layers, below the overlays.
    pub fn push_layer(&mut self, layer: L)
        requires
            old(self).wf(),
            old(self).entries().len() < usize::MAX,
        ensures
            final(self).wf(),
            final(self).entries() == old(self).entries().insert(old(self).boundary() as int, layer),
            final(self).boundary() == old(self).boundary() + 1,
    {
        layer.on_attach();
        self.layers.insert(self.layer_boundary_idx, layer);
        self.layer_boundary_idx = self.layer_boundary_idx + 1;
    }

    /// Detaches and hands back the lowest layer (not overlay) with `layer`'s id.
    pub fn pop_layer(&mut self, layer: &L) -> (r: Option<L>)
        requires
            old(self).wf(),
        ensures
            final(self).wf(),
            r is None <==> forall|i: int| 0 <= i < old(self).boundary() ==> old(self).entries()[i].spec_id() != layer.spec_id(),
            r matches Some(l) ==> {
                let i = first_with_id(old(self).entries(), old(self).boundary(), layer.spec_id());
                &&& l == old(self).entries()[i]
                &&& final(self).entries() == old(self).entries().remove(i)
                &&& final(self).boundary() == old(self).boundary() - 1
            },
            r is None ==> final(self).entries() == old(self).entries() && final(self).boundary() == old(self).boundary(),
    {
        let id = layer.id();
        let mut i: usize = 0;
        while i < self.layer_boundary_idx
            invariant
                self.wf(),
                self == old(self),
                i <= self.boundary(),
                id == layer.spec_id(),
                forall|j: int| 0 <= j < i ==> self.entries()[j].spec_id() != id,
            decreases self.layer_boundary_idx - i,
        {
            if self.layers[i].id() == id {
                proof {
                    let f = first_with_id(self.entries(), self.boundary(), id);
                    assert(0 <= i < self.boundary() && self.entries()[i as int].spec_id() == id);
                    assert(f == i);
                }
                let removed = self.layers.remove(i);
                removed.on_detach();
                self.layer_boundary_idx = self.layer_boundary_idx - 1;
                return Some(removed);
            }
            i = i + 1;
        }
        None
    }

    /// Attaches `overlay` and places it on top of everything.
    pub fn push_overlay(&mut self, overlay: L)
        requires
            old(self).wf(),
        ensures
            final(self).wf(),
            final(self).entries() == old(self).entries().push(overlay),
            final(self).boundary() == old(self).boundary(),
    {
        overlay.on_attach();
        self.layers.push(overlay);
    }

    /// Detaches and hands back the topmost overlay, if there is one.
    pub fn pop_overlay(&mut self) -> (r: Option<L>)
        requires
            old(self).wf(),
        ensures
            final(self).wf(),
            final(self).boundary() == old(self).boundary(),
            old(self).entries().len() > old(self).boundary() ==> r == Some(old(self).entries().last())
                && final(self).entries() == old(self).entries().drop_last(),
            old(self).entries().len() == old(self).boundary() ==> r is None && final(self).entries() == old(self).entries(),
    {
        if self.layers.len() > self.layer_boundary_idx {
            let overlay = self.layers.pop().unwrap();
            overlay.on_detach();
            Some(overlay)
        } else {
            None
        }
    }

    /// The layers, then the overlays, bottom first.
    pub fn layers(&self) -> (r: &Vec<L>)
        ensures
            r@ == self.entries(),
    {
        &self.layers
    }
}

impl<L: Layer> Default for LayerStack<L> {
    fn default() -> (r: Self)
        ensures
            r.wf(),
            r.entries() == Seq::<L>::empty(),
            r.boundary() == 0,
    {
        Self::new()
    }
}

/// The position of the lowest of the first `bound` entries with id `id`.
pub open spec fn first_with_id<L: Layer>(entries: Seq<L>, bound: nat, id: u32) -> int {
    choose|i: int|
        0 <= i < bound && entries[i].spec_id() == id && forall|j: int| 0 <= j < i ==> entries[j].spec_id() != id
}

} // verus!
