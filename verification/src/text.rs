//! Font glyph bookkeeping: each rasterised glyph claims a rectangle in a
//! texture atlas and is found again by character. Rasterising glyphs and
//! painting the atlas image belong to the surrounding application.

use vstd::prelude::*;

verus! {

use crate::texture::{
    MAX_RECT_EXTENT,
    MAX_TOTAL_HEIGHT,
    Rect,
    TextureAtlas,
    TextureHandle,
    spec_lookup,
    sum_heights,
};

/// Size, bearing and advance of one rasterised glyph, in pixels (the
/// advance in the rasteriser's 1/64-pixel steps).
#[derive(Clone, Copy, PartialEq, Eq, Structural, Debug)]
pub struct CharacterMetric {
    pub size_x: i32,
    pub size_y: i32,
    pub bearing_x: i32,
    pub bearing_y: i32,
    pub advance: i32,
}

/// The atlas handle registered for character `c`, if any: the first entry
/// of the glyph map that names `c`.
pub open spec fn glyph_lookup(s: Seq<(char, TextureHandle)>, c: char) -> Option<TextureHandle>
    decreases s.len(),
{
    if s.len() == 0 {
        None
    } else if s[0].0 == c {
        Some(s[0].1)
    } else {
        glyph_lookup(s.drop_first(), c)
    }
}

proof fn lemma_glyph_lookup_found(s: Seq<(char, TextureHandle)>, c: char, i: int)
    requires
        0 <= i < s.len(),
        s[i].0 == c,
        forall|m: int| 0 <= m < i ==> (#[trigger] s[m]).0 != c,
    ensures
        glyph_lookup(s, c) == Some(s[i].1),
    decreases i,
{
    if i > 0 {
        lemma_glyph_lookup_found(s.drop_first(), c, i - 1);
    }
}

proof fn lemma_glyph_lookup_none(s: Seq<(char, TextureHandle)>, c: char)
    requires
        forall|m: int| 0 <= m < s.len() ==> (#[trigger] s[m]).0 != c,
    ensures
        glyph_lookup(s, c) is None,
    decreases s.len(),
{
    if s.len() > 0 {
        lemma_glyph_lookup_none(s.drop_first(), c);
    }
}

/// A font's atlas bookkeeping: one atlas rectangle per rasterised glyph,
/// found again by character, plus each glyph's metrics.
pub struct Font {
    pub atlas: TextureAtlas,
    pub glyph_map: Vec<(char, TextureHandle)>,
    pub metrics: Vec<(char, CharacterMetric)>,
}

impl Font {
    /// A font with no glyphs and an empty atlas.
    pub fn new() -> (r: Self)
        ensures
            r.atlas.wf(),
            r.atlas.entries().len() == 0,
            r.atlas.next_handle() == 0,
            r.glyph_map@.len() == 0,
            r.metrics@.len() == 0,
    {
        Font { atlas: TextureAtlas::new(), glyph_map: Vec::new(), metrics: Vec::new() }
    }

    /// Claims a `w x h` atlas rectangle for glyph `c` and records its
    /// metrics. The rectangle's position is assigned by the next pack of
    /// the atlas.
    pub fn register_glyph(&mut self, c: char, w: i32, h: i32, metric: CharacterMetric) -> (handle:
        TextureHandle)
        requires
            old(self).atlas.wf(),
            0 <= w <= MAX_RECT_EXTENT,
            0 <= h <= MAX_RECT_EXTENT,
            sum_heights(old(self).atlas.entries()) + h <= MAX_TOTAL_HEIGHT,
            old(self).atlas.next_handle() < u32::MAX,
        ensures
            final(self).atlas.wf(),
            handle == old(self).atlas.next_handle(),
            final(self).atlas.entries() == old(self).atlas.entries().push(
                (Rect { x: 0, y: 0, w, h }, handle),
            ),
            final(self).atlas.next_handle() == handle + 1,
            final(self).glyph_map@ == old(self).glyph_map@.push((c, handle)),
            final(self).metrics@ == old(self).metrics@.push((c, metric)),
    {
        let handle = self.atlas.add(w, h);
        self.glyph_map.push((c, handle));
        self.metrics.push((c, metric));
        handle
    }

    /// The atlas rectangle of glyph `c`. Asking for a character that was
    /// never registered, or whose handle is missing from the atlas, is a
    /// fatal precondition violation.
    pub fn get_char_rect(&self, c: char) -> (r: Rect)
        requires
            glyph_lookup(self.glyph_map@, c) is Some,
            spec_lookup(
                self.atlas.entries(),
                glyph_lookup(self.glyph_map@, c)->Some_0,
            ) is Some,
        ensures
            Some(r) == match spec_lookup(
                self.atlas.entries(),
                glyph_lookup(self.glyph_map@, c)->Some_0,
            ) {
                Some(p) => Some(p.0),
                None => None,
            },
    {
        let mut i: usize = 0;
        while i < self.glyph_map.len()
            invariant
                0 <= i <= self.glyph_map@.len(),
                forall|m: int| 0 <= m < i ==> (#[trigger] self.glyph_map@[m]).0 != c,
                glyph_lookup(self.glyph_map@, c) is Some,
                spec_lookup(
                    self.atlas.entries(),
                    glyph_lookup(self.glyph_map@, c)->Some_0,
                ) is Some,
            decreases self.glyph_map@.len() - i,
        {
            if self.glyph_map[i].0 == c {
                proof {
                    lemma_glyph_lookup_found(self.glyph_map@, c, i as int);
                }
                let handle = self.glyph_map[i].1;
                let p = self.atlas.get_rect(&handle).unwrap();
                return p.0;
            }
            i = i + 1;
        }
        proof {
            lemma_glyph_lookup_none(self.glyph_map@, c);
            assert(false);
        }
        Rect { x: 0, y: 0, w: 0, h: 0 }
    }
}

} // verus!
