use vstd::prelude::*;

use crate::texture::Texture;

verus! {

/// An icon assembled from decoded textures: a base layer and up to four
/// optional layers alpha-blended over or under it. The compositor
/// consumes the layers bottom-most first.
pub struct Icon {
    pub width: u32,
    pub height: u32,
    pub scale: u32,
    pub base: Texture,
    pub underlay: Option<Texture>,
    pub overlay: Option<Texture>,
    pub overlay2: Option<Texture>,
    pub effect: Option<Texture>,
}

impl Icon {
    /// The textures composing the icon in blend order, bottom-most
    /// first: underlay, base, overlay, overlay2, effect; absent layers
    /// are skipped.
    pub open spec fn layers_spec(&self) -> Seq<Texture> {
        (match self.underlay {
            Some(t) => seq![t],
            None => Seq::empty(),
        }) + seq![self.base] + (match self.overlay {
            Some(t) => seq![t],
            None => Seq::empty(),
        }) + (match self.overlay2 {
            Some(t) => seq![t],
            None => Seq::empty(),
        }) + (match self.effect {
            Some(t) => seq![t],
            None => Seq::empty(),
        })
    }

    /// How many layers the icon stacks.
    pub fn layer_count(&self) -> (n: usize)
        ensures
            n == self.layers_spec().len(),
            1 <= n <= 5,
    {
        let mut n: usize = 1;
        if self.underlay.is_some() {
            n = n + 1;
        }
        if self.overlay.is_some() {
            n = n + 1;
        }
        if self.overlay2.is_some() {
            n = n + 1;
        }
        if self.effect.is_some() {
            n = n + 1;
        }
        n
    }

    /// The `i`-th layer in blend order, bottom-most first.
    pub fn layer(&self, i: usize) -> (t: &Texture)
        requires
            i < self.layers_spec().len(),
        ensures
            *t == self.layers_spec()[i as int],
    {
        let mut idx = i;
        if let Some(u) = &self.underlay {
            if idx == 0 {
                return u;
            }
            idx = idx - 1;
        }
        if idx == 0 {
            return &self.base;
        }
        idx = idx - 1;
        if let Some(o) = &self.overlay {
            if idx == 0 {
                return o;
            }
            idx = idx - 1;
        }
        if let Some(o) = &self.overlay2 {
            if idx == 0 {
                return o;
            }
            idx = idx - 1;
        }
        if let Some(e) = &self.effect {
            if idx == 0 {
                return e;
            }
        }
        proof {
            assert(false);
        }
        &self.base
    }
}

} // verus!
