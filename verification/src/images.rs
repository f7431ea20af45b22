//! Images by destination.

use vstd::hash_map::StringHashMap;
use vstd::prelude::*;

use crate::bitmap::Bitmap;

verus! {

/// Decoded images, keyed by their destinations exactly as a document writes them. The view maps
/// each destination to the image's rows.
pub struct ImageMap {
    images: StringHashMap<Bitmap>,
}

impl View for ImageMap {
    type V = Map<Seq<char>, Seq<Seq<bool>>>;

    closed spec fn view(&self) -> Map<Seq<char>, Seq<Seq<bool>>> {
        self.images@.map_values(|bitmap: Bitmap| bitmap@)
    }
}

impl ImageMap {
    /// A map without images.
    pub fn new() -> (r: ImageMap)
        ensures
            r@ == Map::<Seq<char>, Seq<Seq<bool>>>::empty(),
    {
        let r = ImageMap { images: StringHashMap::new() };
        assert(r@ =~= Map::empty());
        r
    }

    /// Adds an image, in place of an earlier one for the same destination.
    pub fn insert(&mut self, dest: String, bitmap: Bitmap)
        ensures
            final(self)@ == old(self)@.insert(dest@, bitmap@),
    {
        self.images.insert(dest, bitmap);
        assert(self@ =~= old(self)@.insert(dest@, bitmap@));
    }

    /// The image of a destination, if there is one.
    pub fn get(&self, dest: &str) -> (r: Option<&Bitmap>)
        ensures
            match r {
                Some(bitmap) => self@.dom().contains(dest@) && self@[dest@] == bitmap@,
                None => !self@.dom().contains(dest@),
            },
    {
        self.images.get(dest)
    }
}

} // verus!
