//! Draw batching: entities submitting byte-identical geometry share one
//! object (and hence one draw call), and differ only in their per-instance
//! records. Instance lists are cleared at each frame boundary; objects and
//! their geometry persist.

use vstd::prelude::*;

verus! {

use crate::texture::{
    ATLAS_WIDTH,
    same_dims_as_sorted,
    MAX_RECT_EXTENT,
    MAX_TOTAL_HEIGHT,
    Rect,
    TextureAtlas,
    TextureHandle,
    lemma_lookup_after_add,
    lemma_lookup_push_other,
    lemma_pack_preserves_lookup,
    packed_layout,
    rects_disjoint,
    spec_lookup,
    sum_heights,
};

/// Per-instance data for one drawn entity: the integer world position its
/// transform is built from, and the atlas placement of its texture.
#[derive(Clone, Copy, PartialEq, Eq, Structural, Debug)]
pub struct RenderInstance {
    pub pos_x: i64,
    pub pos_y: i64,
    pub pos_z: i64,
    pub tex_offset_x: i32,
    pub tex_offset_y: i32,
    pub tex_size_w: i32,
    pub tex_size_h: i32,
}

/// The instance record for an entity at integer world position
/// `(pos_x, pos_y, pos_z)` whose texture occupies `rect` in the atlas.
pub open spec fn spec_instance_record(pos_x: i64, pos_y: i64, pos_z: i64, rect: Rect) -> RenderInstance {
    RenderInstance {
        pos_x,
        pos_y,
        pos_z,
        tex_offset_x: rect.x,
        tex_offset_y: rect.y,
        tex_size_w: rect.w,
        tex_size_h: rect.h,
    }
}

/// One batch: a distinct geometry, identified by its raw vertex and index
/// bytes, and the instances queued against it in the current frame.
pub struct Object {
    pub vertex_data: Vec<u8>,
    pub index_data: Vec<u8>,
    pub indices_length: usize,
    pub instances: Vec<RenderInstance>,
}

/// `o` carries exactly the geometry bytes `(v, ind)`.
pub open spec fn geometry_matches(o: Object, v: Seq<u8>, ind: Seq<u8>) -> bool {
    o.vertex_data@ == v && o.index_data@ == ind
}

/// No two objects carry the same geometry bytes.
pub open spec fn keys_unique(objs: Seq<Object>) -> bool {
    forall|i: int, j: int|
        0 <= i < j < objs.len() ==> !geometry_matches(
            objs[i],
            objs[j].vertex_data@,
            objs[j].index_data@,
        )
}

/// Index of the first object carrying the geometry bytes `(v, ind)`.
pub open spec fn find_geometry(objs: Seq<Object>, v: Seq<u8>, ind: Seq<u8>) -> Option<int>
    decreases objs.len(),
{
    if objs.len() == 0 {
        None
    } else if geometry_matches(objs[0], v, ind) {
        Some(0)
    } else {
        match find_geometry(objs.drop_first(), v, ind) {
            None => None,
            Some(j) => Some(j + 1),
        }
    }
}

pub proof fn lemma_find_some(objs: Seq<Object>, v: Seq<u8>, ind: Seq<u8>, i: int)
    requires
        0 <= i < objs.len(),
        geometry_matches(objs[i], v, ind),
        forall|m: int| 0 <= m < i ==> !geometry_matches(#[trigger] objs[m], v, ind),
    ensures
        find_geometry(objs, v, ind) == Some(i),
    decreases i,
{
    if i == 0 {
    } else {
        lemma_find_some(objs.drop_first(), v, ind, i - 1);
    }
}

pub proof fn lemma_find_none(objs: Seq<Object>, v: Seq<u8>, ind: Seq<u8>)
    requires
        forall|m: int| 0 <= m < objs.len() ==> !geometry_matches(#[trigger] objs[m], v, ind),
    ensures
        find_geometry(objs, v, ind) is None,
    decreases objs.len(),
{
    if objs.len() > 0 {
        lemma_find_none(objs.drop_first(), v, ind);
    }
}

/// Two object sequences with identical geometry bytes at every index
/// resolve every geometry search identically.
pub proof fn lemma_find_geometry_congruence(a: Seq<Object>, b: Seq<Object>, v: Seq<u8>, ind: Seq<u8>)
    requires
        a.len() == b.len(),
        forall|i: int|
            0 <= i < a.len() ==> (#[trigger] a[i]).vertex_data@ == b[i].vertex_data@
                && a[i].index_data@ == b[i].index_data@,
    ensures
        find_geometry(a, v, ind) == find_geometry(b, v, ind),
    decreases a.len(),
{
    if a.len() > 0 {
        assert(forall|i: int|
            0 <= i < a.drop_first().len() ==> (#[trigger] a.drop_first()[i]).vertex_data@
                == b.drop_first()[i].vertex_data@ && a.drop_first()[i].index_data@
                == b.drop_first()[i].index_data@);
        lemma_find_geometry_congruence(a.drop_first(), b.drop_first(), v, ind);
        assert(a[0].vertex_data@ == b[0].vertex_data@ && a[0].index_data@ == b[0].index_data@);
    }
}

/// A failed geometry search means no object carries those bytes.
pub proof fn lemma_find_none_converse(objs: Seq<Object>, v: Seq<u8>, ind: Seq<u8>)
    requires
        find_geometry(objs, v, ind) is None,
    ensures
        forall|m: int| 0 <= m < objs.len() ==> !geometry_matches(#[trigger] objs[m], v, ind),
    decreases objs.len(),
{
    if objs.len() > 0 {
        lemma_find_none_converse(objs.drop_first(), v, ind);
        assert forall|m: int| 0 <= m < objs.len() implies !geometry_matches(
            #[trigger] objs[m],
            v,
            ind,
        ) by {
            if m > 0 {
                assert(objs.drop_first()[m - 1] == objs[m]);
            }
        }
    }
}

/// Byte-for-byte equality of two buffers.
fn bytes_eq(a: &Vec<u8>, b: &Vec<u8>) -> (r: bool)
    ensures
        r == (a@ == b@),
{
    if a.len() != b.len() {
        return false;
    }
    let mut i: usize = 0;
    while i < a.len()
        invariant
            a@.len() == b@.len(),
            0 <= i <= a@.len(),
            forall|m: int| 0 <= m < i ==> a@[m] == b@[m],
        decreases a@.len() - i,
    {
        if a[i] != b[i] {
            return false;
        }
        i = i + 1;
    }
    proof {
        assert(a@ =~= b@);
    }
    true
}

/// Copy of a byte buffer.
fn clone_bytes(v: &Vec<u8>) -> (r: Vec<u8>)
    ensures
        r@ == v@,
{
    let mut r: Vec<u8> = Vec::new();
    let mut i: usize = 0;
    while i < v.len()
        invariant
            0 <= i <= v@.len(),
            r@ == v@.take(i as int),
        decreases v@.len() - i,
    {
        r.push(v[i]);
        proof {
            assert(v@.take(i as int).push(v@[i as int]) =~= v@.take(i as int + 1));
        }
        i = i + 1;
    }
    proof {
        assert(v@.take(v@.len() as int) =~= v@);
    }
    r
}

/// The batching state: the registered geometries with their queued
/// instances, and the texture atlas that instance records are looked up in.
pub struct Renderer {
    pub objects: Vec<Object>,
    pub texture_atlas: TextureAtlas,
}

impl Renderer {
    /// Well-formedness: a sound atlas and one object per distinct geometry.
    pub open spec fn wf(self) -> bool {
        &&& self.texture_atlas.wf()
        &&& keys_unique(self.objects@)
    }

    /// A renderer with no geometry, no instances and an empty atlas.
    pub fn new() -> (r: Self)
        ensures
            r.wf(),
            r.objects@.len() == 0,
            r.texture_atlas.entries().len() == 0,
            r.texture_atlas.next_handle() == 0,
    {
        Renderer { objects: Vec::new(), texture_atlas: TextureAtlas::new() }
    }

    /// Registers a `width x height` texture: records its rectangle, issues
    /// the next handle and repacks the whole atlas, as each registration
    /// does during setup. Afterwards every handle issued so far, the new one
    /// included, looks up to its registered extent, and the packed layout
    /// keeps all rectangles disjoint and inside the atlas.
    pub fn register_texture(&mut self, width: i32, height: i32) -> (handle: TextureHandle)
        requires
            old(self).wf(),
            0 <= width <= MAX_RECT_EXTENT,
            0 <= height <= MAX_RECT_EXTENT,
            sum_heights(old(self).texture_atlas.entries()) + height <= MAX_TOTAL_HEIGHT,
            old(self).texture_atlas.next_handle() < u32::MAX,
        ensures
            final(self).wf(),
            final(self).objects@ == old(self).objects@,
            handle == old(self).texture_atlas.next_handle(),
            final(self).texture_atlas.next_handle() == handle + 1,
            final(self).texture_atlas.entries().len() == old(self).texture_atlas.entries().len()
                + 1,
            same_dims_as_sorted(
                old(self).texture_atlas.entries().push(
                    (Rect { x: 0, y: 0, w: width, h: height }, handle),
                ),
                final(self).texture_atlas.entries(),
            ),
            packed_layout(final(self).texture_atlas.entries()),
            sum_heights(final(self).texture_atlas.entries()) == sum_heights(
                old(self).texture_atlas.entries(),
            ) + height,
            ({
                let e = spec_lookup(final(self).texture_atlas.entries(), handle);
                &&& e is Some
                &&& e->Some_0.0.w == width
                &&& e->Some_0.0.h == height
            }),
            forall|hd: TextureHandle|
                hd != handle ==> match (
                    #[trigger] spec_lookup(old(self).texture_atlas.entries(), hd),
                    spec_lookup(final(self).texture_atlas.entries(), hd),
                ) {
                    (Some(a), Some(b)) => a.0.w == b.0.w && a.0.h == b.0.h,
                    (None, None) => true,
                    _ => false,
                },
            forall|i: int, j: int|
                0 <= i < j < final(self).texture_atlas.entries().len() ==> rects_disjoint(
                    (#[trigger] final(self).texture_atlas.entries()[i]).0,
                    (#[trigger] final(self).texture_atlas.entries()[j]).0,
                ),
            forall|k: int|
                0 <= k < final(self).texture_atlas.entries().len() ==> {
                    let r = (#[trigger] final(self).texture_atlas.entries()[k]).0;
                    &&& 0 <= r.x
                    &&& 0 <= r.y
                    &&& r.w <= ATLAS_WIDTH ==> r.x + r.w <= ATLAS_WIDTH
                    &&& r.y + r.h <= final(self).texture_atlas.height
                },
    {
        let handle = self.texture_atlas.add(width, height);
        proof {
            lemma_lookup_after_add(
                old(self).texture_atlas.entries(),
                (Rect { x: 0, y: 0, w: width, h: height }, handle),
            );
        }
        let ghost mid = self.texture_atlas.entries();
        self.texture_atlas.pack();
        proof {
            lemma_pack_preserves_lookup(mid, self.texture_atlas.entries(), handle);
            assert forall|hd: TextureHandle| hd != handle implies match (
                #[trigger] spec_lookup(old(self).texture_atlas.entries(), hd),
                spec_lookup(self.texture_atlas.entries(), hd),
            ) {
                (Some(a), Some(b)) => a.0.w == b.0.w && a.0.h == b.0.h,
                (None, None) => true,
                _ => false,
            } by {
                lemma_lookup_push_other(
                    old(self).texture_atlas.entries(),
                    (Rect { x: 0, y: 0, w: width, h: height }, handle),
                    hd,
                );
                lemma_pack_preserves_lookup(mid, self.texture_atlas.entries(), hd);
            }
        }
        handle
    }

    /// Queues one entity for the current frame. An entity whose geometry
    /// bytes match an already registered object only appends an instance
    /// record to that object; otherwise a new object is registered with this
    /// entity as its first instance. The record carries the atlas placement
    /// of `texture`; queueing an entity whose texture handle was never
    /// registered is a fatal precondition violation.
    pub fn queue_draw(
        &mut self,
        vertex_data: &Vec<u8>,
        index_data: &Vec<u8>,
        indices_length: usize,
        pos_x: i64,
        pos_y: i64,
        pos_z: i64,
        texture: TextureHandle,
    )
        requires
            spec_lookup(old(self).texture_atlas.entries(), texture) is Some,
            keys_unique(old(self).objects@),
        ensures
            final(self).texture_atlas == old(self).texture_atlas,
            keys_unique(final(self).objects@),
            ({
                let rect = spec_lookup(old(self).texture_atlas.entries(), texture)->Some_0.0;
                let inst = spec_instance_record(pos_x, pos_y, pos_z, rect);
                match find_geometry(old(self).objects@, vertex_data@, index_data@) {
                    Some(j) => {
                        &&& final(self).objects@.len() == old(self).objects@.len()
                        &&& forall|i: int|
                            0 <= i < old(self).objects@.len() && i != j ==> final(self).objects@[i] == old(self).objects@[i]
                        &&& final(self).objects@[j].vertex_data@ == old(self).objects@[j].vertex_data@
                        &&& final(self).objects@[j].index_data@ == old(self).objects@[j].index_data@
                        &&& final(self).objects@[j].indices_length == old(self).objects@[j].indices_length
                        &&& final(self).objects@[j].instances@ == old(self).objects@[j].instances@.push(inst)
                    },
                    None => {
                        &&& final(self).objects@.len() == old(self).objects@.len() + 1
                        &&& forall|i: int|
                            0 <= i < old(self).objects@.len() ==> final(self).objects@[i] == old(self).objects@[i]
                        &&& final(self).objects@.last().vertex_data@ == vertex_data@
                        &&& final(self).objects@.last().index_data@ == index_data@
                        &&& final(self).objects@.last().indices_length == indices_length
                        &&& final(self).objects@.last().instances@ == seq![
                            spec_instance_record(
                                pos_x,
                                pos_y,
                                pos_z,
                                spec_lookup(
                                    old(self).texture_atlas.entries(),
                                    texture,
                                )->Some_0.0,
                            ),
                        ]
                    },
                }
            }),
    {
        let p = self.texture_atlas.get_rect(&texture).unwrap();
        let rect = p.0;
        let inst = RenderInstance {
            pos_x,
            pos_y,
            pos_z,
            tex_offset_x: rect.x,
            tex_offset_y: rect.y,
            tex_size_w: rect.w,
            tex_size_h: rect.h,
        };
        let mut i: usize = 0;
        while i < self.objects.len()
            invariant
                0 <= i <= self.objects@.len(),
                self.objects@ == old(self).objects@,
                self.texture_atlas == old(self).texture_atlas,
                keys_unique(old(self).objects@),
                spec_lookup(old(self).texture_atlas.entries(), texture) is Some,
                rect == spec_lookup(old(self).texture_atlas.entries(), texture)->Some_0.0,
                inst == spec_instance_record(pos_x, pos_y, pos_z, rect),
                forall|m: int|
                    0 <= m < i ==> !geometry_matches(
                        #[trigger] self.objects@[m],
                        vertex_data@,
                        index_data@,
                    ),
            decreases self.objects@.len() - i,
        {
            let same_v = bytes_eq(&self.objects[i].vertex_data, vertex_data);
            let same_i = bytes_eq(&self.objects[i].index_data, index_data);
            if same_v && same_i {
                proof {
                    lemma_find_some(self.objects@, vertex_data@, index_data@, i as int);
                }
                self.objects[i].instances.push(inst);
                proof {
                    assert forall|a: int, b: int|
                        0 <= a < b < self.objects@.len() implies !geometry_matches(
                        self.objects@[a],
                        self.objects@[b].vertex_data@,
                        self.objects@[b].index_data@,
                    ) by {
                        assert(!geometry_matches(
                            old(self).objects@[a],
                            old(self).objects@[b].vertex_data@,
                            old(self).objects@[b].index_data@,
                        ));
                    }
                }
                return ;
            }
            i = i + 1;
        }
        proof {
            lemma_find_none(self.objects@, vertex_data@, index_data@);
        }
        let mut instances: Vec<RenderInstance> = Vec::new();
        instances.push(inst);
        let vd = clone_bytes(vertex_data);
        let idx_d = clone_bytes(index_data);
        self.objects.push(
            Object { vertex_data: vd, index_data: idx_d, indices_length, instances },
        );
        proof {
            assert(self.objects@.last().instances@ =~= seq![inst]);
            assert forall|a: int, b: int|
                0 <= a < b < self.objects@.len() implies !geometry_matches(
                self.objects@[a],
                self.objects@[b].vertex_data@,
                self.objects@[b].index_data@,
            ) by {
                if b < self.objects@.len() - 1 {
                    assert(!geometry_matches(
                        old(self).objects@[a],
                        old(self).objects@[b].vertex_data@,
                        old(self).objects@[b].index_data@,
                    ));
                } else {
                    assert(!geometry_matches(
                        old(self).objects@[a],
                        vertex_data@,
                        index_data@,
                    ));
                }
            }
        }
    }

    /// The frame boundary: drops every queued instance while keeping the
    /// registered geometries and the atlas.
    pub fn clear_instances(&mut self)
        ensures
            final(self).texture_atlas == old(self).texture_atlas,
            final(self).objects@.len() == old(self).objects@.len(),
            forall|i: int|
                0 <= i < old(self).objects@.len() ==> {
                    &&& (#[trigger] final(self).objects@[i]).vertex_data@ == old(self).objects@[i].vertex_data@
                    &&& final(self).objects@[i].index_data@ == old(self).objects@[i].index_data@
                    &&& final(self).objects@[i].indices_length == old(self).objects@[i].indices_length
                    &&& final(self).objects@[i].instances@.len() == 0
                },
            keys_unique(old(self).objects@) ==> keys_unique(final(self).objects@),
    {
        let mut k: usize = 0;
        while k < self.objects.len()
            invariant
                0 <= k <= self.objects@.len(),
                self.texture_atlas == old(self).texture_atlas,
                self.objects@.len() == old(self).objects@.len(),
                forall|i: int|
                    k <= i < old(self).objects@.len() ==> #[trigger] self.objects@[i] == old(self).objects@[i],
                forall|i: int|
                    0 <= i < k ==> {
                        &&& (#[trigger] self.objects@[i]).vertex_data@ == old(self).objects@[i].vertex_data@
                        &&& self.objects@[i].index_data@ == old(self).objects@[i].index_data@
                        &&& self.objects@[i].indices_length == old(self).objects@[i].indices_length
                        &&& self.objects@[i].instances@.len() == 0
                    },
            decreases self.objects@.len() - k,
        {
            self.objects[k].instances.clear();
            k = k + 1;
        }
        proof {
            if keys_unique(old(self).objects@) {
                assert forall|a: int, b: int|
                    0 <= a < b < self.objects@.len() implies !geometry_matches(
                    self.objects@[a],
                    self.objects@[b].vertex_data@,
                    self.objects@[b].index_data@,
                ) by {
                    assert(!geometry_matches(
                        old(self).objects@[a],
                        old(self).objects@[b].vertex_data@,
                        old(self).objects@[b].index_data@,
                    ));
                }
            }
        }
    }
}

} // verus!
