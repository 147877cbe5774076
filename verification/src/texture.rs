//! The texture atlas: rectangle registration and shelf packing.
//!
//! Clients register `w x h` rectangles and get back stable integer handles;
//! `pack` then assigns every rectangle a position on a fixed-width atlas so
//! that no two rectangles overlap.

use vstd::prelude::*;

verus! {

/// Fixed packing width of every atlas.
pub const ATLAS_WIDTH: i32 = 512;

/// Largest accepted width or height of a single rectangle; keeps the packing
/// cursor arithmetic inside `i32`.
pub const MAX_RECT_EXTENT: i32 = 0x3FFF_FFFF;

/// Cap on the summed heights of all registered rectangles; keeps the shelf
/// cursor inside `i32` even when the first shelf is restarted.
pub const MAX_TOTAL_HEIGHT: i32 = 0x4000_0000;

/// A rectangle in atlas pixel space. `w` and `h` are fixed when the rectangle
/// is registered; `x` and `y` are assigned by `TextureAtlas::pack`.
#[derive(Clone, Copy, PartialEq, Eq, Structural, Debug)]
pub struct Rect {
    pub x: i32,
    pub y: i32,
    pub w: i32,
    pub h: i32,
}

/// Stable identifier handed out for each registered rectangle.
pub type TextureHandle = u32;

/// Bounds on a registered rectangle's extent.
pub open spec fn rect_extent_ok(r: Rect) -> bool {
    &&& 0 <= r.w <= MAX_RECT_EXTENT
    &&& 0 <= r.h <= MAX_RECT_EXTENT
}

/// Two rectangles cover disjoint areas (a rectangle with `w == 0` or
/// `h == 0` covers nothing).
pub open spec fn rects_disjoint(a: Rect, b: Rect) -> bool {
    ||| a.x + a.w <= b.x
    ||| b.x + b.w <= a.x
    ||| a.y + a.h <= b.y
    ||| b.y + b.h <= a.y
}

/// Sum of the heights of all entries.
pub open spec fn sum_heights(s: Seq<(Rect, TextureHandle)>) -> int
    decreases s.len(),
{
    if s.len() == 0 {
        0
    } else {
        s[0].0.h + sum_heights(s.drop_first())
    }
}

proof fn lemma_sum_heights_push(s: Seq<(Rect, TextureHandle)>, e: (Rect, TextureHandle))
    ensures
        sum_heights(s.push(e)) == sum_heights(s) + e.0.h,
    decreases s.len(),
{
    if s.len() == 0 {
        assert(s.push(e).drop_first() =~= s);
    } else {
        assert(s.push(e).drop_first() =~= s.drop_first().push(e));
        lemma_sum_heights_push(s.drop_first(), e);
    }
}

/// No two entries carry the same handle.
pub open spec fn handles_unique(s: Seq<(Rect, TextureHandle)>) -> bool {
    forall|i: int, j: int| 0 <= i < j < s.len() ==> s[i].1 != s[j].1
}

/// First entry carrying the given handle, if any.
pub open spec fn spec_lookup(s: Seq<(Rect, TextureHandle)>, handle: TextureHandle) -> Option<
    (Rect, TextureHandle),
>
    decreases s.len(),
{
    if s.len() == 0 {
        None
    } else if s[0].1 == handle {
        Some(s[0])
    } else {
        spec_lookup(s.drop_first(), handle)
    }
}

proof fn lemma_lookup_found(s: Seq<(Rect, TextureHandle)>, handle: TextureHandle, i: int)
    requires
        0 <= i < s.len(),
        s[i].1 == handle,
        forall|m: int| 0 <= m < i ==> s[m].1 != handle,
    ensures
        spec_lookup(s, handle) == Some(s[i]),
    decreases i,
{
    if i == 0 {
    } else {
        lemma_lookup_found(s.drop_first(), handle, i - 1);
    }
}

proof fn lemma_lookup_none(s: Seq<(Rect, TextureHandle)>, handle: TextureHandle)
    requires
        forall|m: int| 0 <= m < s.len() ==> s[m].1 != handle,
    ensures
        spec_lookup(s, handle) is None,
    decreases s.len(),
{
    if s.len() > 0 {
        lemma_lookup_none(s.drop_first(), handle);
    }
}

/// Entries ordered by non-increasing height.
pub open spec fn sorted_desc(s: Seq<(Rect, TextureHandle)>) -> bool {
    forall|i: int, j: int| 0 <= i <= j < s.len() ==> s[i].0.h >= s[j].0.h
}

/// The width, height and handle of an entry: everything packing preserves.
pub open spec fn entry_dims(e: (Rect, TextureHandle)) -> (int, int, TextureHandle) {
    (e.0.w as int, e.0.h as int, e.1)
}

/// 1 if `e` has exactly the dimensions-and-handle triple `d`, else 0.
pub open spec fn count_one(e: (Rect, TextureHandle), d: (int, int, TextureHandle)) -> int {
    if entry_dims(e) == d {
        1
    } else {
        0
    }
}

/// How many entries of `s` carry the dimensions-and-handle triple `d`.
pub open spec fn dims_count(s: Seq<(Rect, TextureHandle)>, d: (int, int, TextureHandle)) -> int
    decreases s.len(),
{
    if s.len() == 0 {
        0
    } else {
        count_one(s[0], d) + dims_count(s.drop_first(), d)
    }
}

proof fn lemma_dims_count_push(s: Seq<(Rect, TextureHandle)>, e: (Rect, TextureHandle))
    ensures
        forall|d: (int, int, TextureHandle)|
            dims_count(s.push(e), d) == dims_count(s, d) + count_one(e, d),
    decreases s.len(),
{
    if s.len() == 0 {
        assert(s.push(e).drop_first() =~= s);
        assert(s.push(e)[0] == e);
        assert forall|d: (int, int, TextureHandle)|
            dims_count(s.push(e), d) == dims_count(s, d) + count_one(e, d) by {
            assert(dims_count(s.push(e), d) == count_one(e, d) + dims_count(s, d));
        }
    } else {
        assert(s.push(e).drop_first() =~= s.drop_first().push(e));
        lemma_dims_count_push(s.drop_first(), e);
        assert(s.push(e)[0] == s[0]);
        assert forall|d: (int, int, TextureHandle)|
            dims_count(s.push(e), d) == dims_count(s, d) + count_one(e, d) by {
            assert(dims_count(s.push(e), d) == count_one(s[0], d) + dims_count(
                s.drop_first().push(e),
                d,
            ));
            assert(dims_count(s, d) == count_one(s[0], d) + dims_count(s.drop_first(), d));
        }
    }
}

/// Stable insertion of `e` into a height-sorted sequence: `e` goes after
/// every entry at least as tall as itself.
pub open spec fn insert_by_height(
    sorted: Seq<(Rect, TextureHandle)>,
    e: (Rect, TextureHandle),
) -> Seq<(Rect, TextureHandle)>
    decreases sorted.len(),
{
    if sorted.len() == 0 {
        seq![e]
    } else if sorted[0].0.h >= e.0.h {
        seq![sorted[0]] + insert_by_height(sorted.drop_first(), e)
    } else {
        seq![e] + sorted
    }
}

/// Stable sort by non-increasing height: entries of equal height keep their
/// relative order.
pub open spec fn sort_by_height(s: Seq<(Rect, TextureHandle)>) -> Seq<(Rect, TextureHandle)>
    decreases s.len(),
{
    if s.len() == 0 {
        Seq::empty()
    } else {
        insert_by_height(sort_by_height(s.drop_last()), s.last())
    }
}

/// Height that bounds every entry of `insert_by_height(s, e)`.
spec fn tallest_with(s: Seq<(Rect, TextureHandle)>, e: (Rect, TextureHandle)) -> int {
    if s.len() > 0 && s[0].0.h >= e.0.h {
        s[0].0.h as int
    } else {
        e.0.h as int
    }
}

proof fn lemma_insert_by_height_props(s: Seq<(Rect, TextureHandle)>, e: (Rect, TextureHandle))
    requires
        sorted_desc(s),
    ensures
        insert_by_height(s, e).len() == s.len() + 1,
        sorted_desc(insert_by_height(s, e)),
        sum_heights(insert_by_height(s, e)) == sum_heights(s) + e.0.h,
        forall|d: (int, int, TextureHandle)|
            dims_count(insert_by_height(s, e), d) == dims_count(s, d) + count_one(e, d),
        forall|j: int|
            0 <= j < insert_by_height(s, e).len() ==> (#[trigger] insert_by_height(s, e)[j]).0.h
                <= tallest_with(s, e),
    decreases s.len(),
{
    let r = insert_by_height(s, e);
    if s.len() == 0 {
        assert(r.drop_first() =~= s);
        assert forall|d: (int, int, TextureHandle)|
            dims_count(r, d) == dims_count(s, d) + count_one(e, d) by {
            assert(dims_count(r, d) == count_one(e, d) + dims_count(s, d));
        }
    } else if s[0].0.h >= e.0.h {
        let tail = s.drop_first();
        assert(sorted_desc(tail)) by {
            assert(forall|i: int, j: int|
                0 <= i <= j < tail.len() ==> tail[i].0.h == s[i + 1].0.h && tail[j].0.h == s[j
                    + 1].0.h);
        }
        lemma_insert_by_height_props(tail, e);
        assert(r.drop_first() =~= insert_by_height(tail, e));
        assert(r[0] == s[0]);
        assert forall|d: (int, int, TextureHandle)|
            dims_count(r, d) == dims_count(s, d) + count_one(e, d) by {
            assert(dims_count(r, d) == count_one(s[0], d) + dims_count(
                insert_by_height(tail, e),
                d,
            ));
            assert(dims_count(s, d) == count_one(s[0], d) + dims_count(tail, d));
        }
        assert(forall|j: int|
            1 <= j < r.len() ==> r[j] == (#[trigger] insert_by_height(tail, e)[j - 1]));
        assert(forall|j: int| 0 <= j < r.len() ==> (#[trigger] r[j]).0.h <= s[0].0.h);
    } else {
        assert(r.drop_first() =~= s);
        assert(r[0] == e);
        assert forall|d: (int, int, TextureHandle)|
            dims_count(r, d) == dims_count(s, d) + count_one(e, d) by {
            assert(dims_count(r, d) == count_one(e, d) + dims_count(s, d));
        }
    }
}

proof fn lemma_sort_by_height_props(s: Seq<(Rect, TextureHandle)>)
    ensures
        sort_by_height(s).len() == s.len(),
        sorted_desc(sort_by_height(s)),
        sum_heights(sort_by_height(s)) == sum_heights(s),
        forall|d: (int, int, TextureHandle)| dims_count(sort_by_height(s), d) == dims_count(s, d),
    decreases s.len(),
{
    if s.len() > 0 {
        let init = s.drop_last();
        lemma_sort_by_height_props(init);
        lemma_insert_by_height_props(sort_by_height(init), s.last());
        lemma_sum_heights_push(init, s.last());
        lemma_dims_count_push(init, s.last());
        assert(init.push(s.last()) =~= s);
    }
}

proof fn lemma_insert_by_height_at_end(s: Seq<(Rect, TextureHandle)>, e: (Rect, TextureHandle))
    requires
        forall|i: int| 0 <= i < s.len() ==> (#[trigger] s[i]).0.h >= e.0.h,
    ensures
        insert_by_height(s, e) == s.push(e),
    decreases s.len(),
{
    if s.len() == 0 {
        assert(insert_by_height(s, e) =~= s.push(e));
    } else {
        lemma_insert_by_height_at_end(s.drop_first(), e);
        assert(insert_by_height(s, e) =~= s.push(e));
    }
}

/// Sorting a sequence that is already height-sorted leaves it unchanged:
/// the sort is stable.
pub proof fn lemma_sort_of_sorted(s: Seq<(Rect, TextureHandle)>)
    requires
        sorted_desc(s),
    ensures
        sort_by_height(s) == s,
    decreases s.len(),
{
    if s.len() > 0 {
        let init = s.drop_last();
        assert(sorted_desc(init)) by {
            assert(forall|i: int, j: int|
                0 <= i <= j < init.len() ==> init[i].0.h == s[i].0.h && init[j].0.h == s[j].0.h);
        }
        lemma_sort_of_sorted(init);
        lemma_insert_by_height_at_end(init, s.last());
        assert(init.push(s.last()) =~= s);
    }
}

proof fn lemma_insert_position(s: Seq<(Rect, TextureHandle)>, e: (Rect, TextureHandle), j: int)
    requires
        0 <= j <= s.len(),
        forall|m: int| 0 <= m < j ==> (#[trigger] s[m]).0.h >= e.0.h,
        j < s.len() ==> s[j].0.h < e.0.h,
    ensures
        insert_by_height(s, e) == s.take(j) + seq![e] + s.skip(j),
    decreases j,
{
    if j == 0 {
        assert(insert_by_height(s, e) =~= s.take(0) + seq![e] + s.skip(0));
    } else {
        lemma_insert_position(s.drop_first(), e, j - 1);
        assert(insert_by_height(s, e) =~= s.take(j) + seq![e] + s.skip(j));
    }
}

proof fn lemma_count_nonneg(s: Seq<(Rect, TextureHandle)>, d: (int, int, TextureHandle))
    ensures
        dims_count(s, d) >= 0,
    decreases s.len(),
{
    if s.len() > 0 {
        lemma_count_nonneg(s.drop_first(), d);
    }
}

proof fn lemma_index_count_pos(s: Seq<(Rect, TextureHandle)>, i: int)
    requires
        0 <= i < s.len(),
    ensures
        dims_count(s, entry_dims(s[i])) > 0,
    decreases s.len(),
{
    lemma_count_nonneg(s.drop_first(), entry_dims(s[i]));
    if i > 0 {
        lemma_index_count_pos(s.drop_first(), i - 1);
    }
}

proof fn lemma_count_pos_exists(s: Seq<(Rect, TextureHandle)>, d: (int, int, TextureHandle))
    requires
        dims_count(s, d) > 0,
    ensures
        exists|i: int| 0 <= i < s.len() && entry_dims(#[trigger] s[i]) == d,
    decreases s.len(),
{
    if entry_dims(s[0]) == d {
        assert(entry_dims(s[0]) == d);
    } else {
        lemma_count_pos_exists(s.drop_first(), d);
        let i = choose|i: int|
            0 <= i < s.drop_first().len() && entry_dims(#[trigger] s.drop_first()[i]) == d;
        assert(entry_dims(s[i + 1]) == d);
    }
}

proof fn lemma_two_indices_count(s: Seq<(Rect, TextureHandle)>, i: int, j: int)
    requires
        0 <= i < j < s.len(),
        entry_dims(s[i]) == entry_dims(s[j]),
    ensures
        dims_count(s, entry_dims(s[i])) >= 2,
    decreases s.len(),
{
    if i == 0 {
        lemma_index_count_pos(s.drop_first(), j - 1);
    } else {
        lemma_two_indices_count(s.drop_first(), i - 1, j - 1);
    }
}

proof fn lemma_count_two_exists(s: Seq<(Rect, TextureHandle)>, d: (int, int, TextureHandle))
    requires
        dims_count(s, d) >= 2,
    ensures
        exists|p: int, q: int|
            0 <= p < q < s.len() && entry_dims(#[trigger] s[p]) == d && entry_dims(
                #[trigger] s[q],
            ) == d,
    decreases s.len(),
{
    lemma_count_nonneg(s.drop_first(), d);
    if entry_dims(s[0]) == d {
        lemma_count_pos_exists(s.drop_first(), d);
        let i = choose|i: int|
            0 <= i < s.drop_first().len() && entry_dims(#[trigger] s.drop_first()[i]) == d;
        assert(entry_dims(s[0]) == d && entry_dims(s[i + 1]) == d);
        assert(0 <= 0 < i + 1 < s.len());
    } else {
        lemma_count_two_exists(s.drop_first(), d);
        let (p, q) = choose|p: int, q: int|
            0 <= p < q < s.drop_first().len() && entry_dims(#[trigger] s.drop_first()[p]) == d
                && entry_dims(#[trigger] s.drop_first()[q]) == d;
        assert(entry_dims(s[p + 1]) == d && entry_dims(s[q + 1]) == d);
    }
}

proof fn lemma_dims_count_congruence(s: Seq<(Rect, TextureHandle)>, t: Seq<(Rect, TextureHandle)>)
    requires
        s.len() == t.len(),
        forall|i: int| 0 <= i < s.len() ==> entry_dims(#[trigger] s[i]) == entry_dims(t[i]),
    ensures
        forall|d: (int, int, TextureHandle)| dims_count(s, d) == dims_count(t, d),
    decreases s.len(),
{
    if s.len() > 0 {
        assert(forall|i: int|
            0 <= i < s.drop_first().len() ==> entry_dims(#[trigger] s.drop_first()[i])
                == entry_dims(t.drop_first()[i]));
        lemma_dims_count_congruence(s.drop_first(), t.drop_first());
        assert forall|d: (int, int, TextureHandle)| dims_count(s, d) == dims_count(t, d) by {
            assert(dims_count(s, d) == count_one(s[0], d) + dims_count(s.drop_first(), d));
            assert(dims_count(t, d) == count_one(t[0], d) + dims_count(t.drop_first(), d));
            assert(entry_dims(s[0]) == entry_dims(t[0]));
        }
    }
}

proof fn lemma_sum_heights_congruence(s: Seq<(Rect, TextureHandle)>, t: Seq<(Rect, TextureHandle)>)
    requires
        s.len() == t.len(),
        forall|i: int| 0 <= i < s.len() ==> entry_dims(#[trigger] s[i]) == entry_dims(t[i]),
    ensures
        sum_heights(s) == sum_heights(t),
    decreases s.len(),
{
    if s.len() > 0 {
        assert(forall|i: int|
            0 <= i < s.drop_first().len() ==> entry_dims(#[trigger] s.drop_first()[i])
                == entry_dims(t.drop_first()[i]));
        lemma_sum_heights_congruence(s.drop_first(), t.drop_first());
        assert(entry_dims(s[0]) == entry_dims(t[0]));
    }
}

proof fn lemma_sum_heights_take_step(s: Seq<(Rect, TextureHandle)>, k: int)
    requires
        0 <= k < s.len(),
    ensures
        sum_heights(s.take(k + 1)) == sum_heights(s.take(k)) + s[k].0.h,
{
    assert(s.take(k + 1) =~= s.take(k).push(s[k]));
    lemma_sum_heights_push(s.take(k), s[k]);
}

proof fn lemma_sum_heights_take_le(s: Seq<(Rect, TextureHandle)>, k: int)
    requires
        0 <= k <= s.len(),
        forall|i: int| 0 <= i < s.len() ==> (#[trigger] s[i]).0.h >= 0,
    ensures
        sum_heights(s.take(k)) <= sum_heights(s),
    decreases s.len() - k,
{
    if k == s.len() {
        assert(s.take(k) =~= s);
    } else {
        lemma_sum_heights_take_step(s, k);
        lemma_sum_heights_take_le(s, k + 1);
    }
}

/// Builds a copy of `v` sorted by non-increasing height, preserving the
/// relative order of entries of equal height.
fn sort_rects(v: &Vec<(Rect, TextureHandle)>) -> (r: Vec<(Rect, TextureHandle)>)
    ensures
        r@ == sort_by_height(v@),
{
    let mut out: Vec<(Rect, TextureHandle)> = Vec::new();
    let mut i: usize = 0;
    while i < v.len()
        invariant
            0 <= i <= v.len(),
            out@ == sort_by_height(v@.take(i as int)),
            sorted_desc(out@),
        decreases v.len() - i,
    {
        let e = v[i];
        let mut j: usize = 0;
        while j < out.len() && out[j].0.h >= e.0.h
            invariant
                0 <= j <= out.len(),
                forall|m: int| 0 <= m < j ==> (#[trigger] out@[m]).0.h >= e.0.h,
            decreases out.len() - j,
        {
            j = j + 1;
        }
        proof {
            lemma_insert_position(out@, e, j as int);
            lemma_insert_by_height_props(out@, e);
            assert(out@.insert(j as int, e) =~= out@.take(j as int) + seq![e] + out@.skip(
                j as int,
            ));
            assert(v@.take(i as int + 1).drop_last() =~= v@.take(i as int));
            assert(v@.take(i as int + 1).last() == v@[i as int]);
        }
        out.insert(j, e);
        i = i + 1;
    }
    proof {
        assert(v@.take(v@.len() as int) =~= v@);
    }
    out
}

/// Shelf-walk cursor: where the next rectangle would be placed and how tall
/// the current shelf is.
pub struct Cursor {
    pub x: int,
    pub y: int,
    pub shelf: int,
}

/// Cursor state before the `k`-th entry of a packed sequence is placed. It
/// depends only on the entry extents, never on their stored positions.
pub open spec fn cursor_before(s: Seq<(Rect, TextureHandle)>, k: int) -> Cursor
    decreases k,
{
    if k <= 0 {
        Cursor {
            x: 0,
            y: 0,
            shelf: if s.len() > 0 {
                s[0].0.h as int
            } else {
                0
            },
        }
    } else {
        let c = cursor_before(s, k - 1);
        let e = s[k - 1];
        if c.x + e.0.w >= ATLAS_WIDTH {
            Cursor { x: e.0.w as int, y: c.y + c.shelf, shelf: e.0.h as int }
        } else {
            Cursor { x: c.x + e.0.w, y: c.y, shelf: c.shelf }
        }
    }
}

/// Every entry sits exactly where the shelf walk over its own extents puts
/// it: at the cursor, or at the start of a fresh shelf when it would cross
/// the atlas width.
pub open spec fn pack_positions_ok(s: Seq<(Rect, TextureHandle)>) -> bool {
    forall|k: int|
        0 <= k < s.len() ==> {
            let c = cursor_before(s, k);
            let e = #[trigger] s[k];
            if c.x + e.0.w >= ATLAS_WIDTH {
                e.0.x == 0 && e.0.y == c.y + c.shelf
            } else {
                e.0.x == c.x && e.0.y == c.y
            }
        }
}

/// A fully packed layout: tallest-first order with every entry on its shelf.
pub open spec fn packed_layout(s: Seq<(Rect, TextureHandle)>) -> bool {
    sorted_desc(s) && pack_positions_ok(s)
}

/// `t` carries the extents and handles of `s` sorted tallest-first.
pub open spec fn same_dims_as_sorted(
    s: Seq<(Rect, TextureHandle)>,
    t: Seq<(Rect, TextureHandle)>,
) -> bool {
    &&& t.len() == s.len()
    &&& forall|k: int|
        0 <= k < t.len() ==> entry_dims(#[trigger] t[k]) == entry_dims(sort_by_height(s)[k])
}

/// The cursor never looks at stored positions: sequences with equal extents
/// walk the same shelves.
proof fn lemma_cursor_congruence(s: Seq<(Rect, TextureHandle)>, t: Seq<(Rect, TextureHandle)>, k: int)
    requires
        s.len() == t.len(),
        forall|i: int| 0 <= i < s.len() ==> entry_dims(#[trigger] s[i]) == entry_dims(t[i]),
        0 <= k <= s.len(),
    ensures
        cursor_before(s, k) == cursor_before(t, k),
    decreases k,
{
    if k == 0 {
        if s.len() > 0 {
            assert(entry_dims(s[0]) == entry_dims(t[0]));
        }
    } else {
        lemma_cursor_congruence(s, t, k - 1);
        assert(entry_dims(s[k - 1]) == entry_dims(t[k - 1]));
    }
}

/// Equal extent-and-handle counts carry handle uniqueness across a repack.
proof fn lemma_counts_preserve_uniqueness(
    s: Seq<(Rect, TextureHandle)>,
    t: Seq<(Rect, TextureHandle)>,
)
    requires
        handles_unique(s),
        forall|d: (int, int, TextureHandle)| dims_count(t, d) == dims_count(s, d),
    ensures
        handles_unique(t),
{
    assert forall|i: int, j: int| 0 <= i < j < t.len() implies t[i].1 != t[j].1 by {
        if t[i].1 == t[j].1 {
            if entry_dims(t[i]) == entry_dims(t[j]) {
                lemma_two_indices_count(t, i, j);
                lemma_count_two_exists(s, entry_dims(t[i]));
                let (p, q) = choose|p: int, q: int|
                    0 <= p < q < s.len() && entry_dims(#[trigger] s[p]) == entry_dims(t[i])
                        && entry_dims(#[trigger] s[q]) == entry_dims(t[i]);
                assert(s[p].1 == s[q].1);
                assert(false);
            } else {
                lemma_index_count_pos(t, i);
                lemma_index_count_pos(t, j);
                lemma_count_pos_exists(s, entry_dims(t[i]));
                lemma_count_pos_exists(s, entry_dims(t[j]));
                let p = choose|p: int|
                    0 <= p < s.len() && entry_dims(#[trigger] s[p]) == entry_dims(t[i]);
                let q = choose|q: int|
                    0 <= q < s.len() && entry_dims(#[trigger] s[q]) == entry_dims(t[j]);
                assert(p != q);
                assert(s[p].1 == s[q].1);
                assert(false);
            }
        }
    }
}

proof fn lemma_lookup_props(s: Seq<(Rect, TextureHandle)>, handle: TextureHandle)
    ensures
        match spec_lookup(s, handle) {
            Some(a) => a.1 == handle && exists|i: int| 0 <= i < s.len() && #[trigger] s[i] == a,
            None => forall|i: int| 0 <= i < s.len() ==> (#[trigger] s[i]).1 != handle,
        },
    decreases s.len(),
{
    if s.len() == 0 {
    } else if s[0].1 == handle {
        let a = spec_lookup(s, handle)->Some_0;
        assert(a == s[0]);
        assert(0 <= 0 < s.len() && s[0] == a);
    } else {
        lemma_lookup_props(s.drop_first(), handle);
        match spec_lookup(s.drop_first(), handle) {
            Some(a) => {
                let i = choose|i: int|
                    0 <= i < s.drop_first().len() && #[trigger] s.drop_first()[i] == a;
                assert(s[i + 1] == a);
            },
            None => {
                assert forall|i: int| 0 <= i < s.len() implies (#[trigger] s[i]).1 != handle by {
                    if i > 0 {
                        assert(s.drop_first()[i - 1] == s[i]);
                    }
                }
            },
        }
    }
}

/// Repacking an already packed atlas moves nothing: the sort is stable, and
/// the shelf walk reads only extents, so packing the unchanged rectangle set
/// `s` a second time reproduces every position. `t` stands for the entries
/// a second `pack` would produce, described exactly as `pack`'s contract
/// describes them.
pub proof fn lemma_pack_idempotent(s: Seq<(Rect, TextureHandle)>, t: Seq<(Rect, TextureHandle)>)
    requires
        packed_layout(s),
        same_dims_as_sorted(s, t),
        pack_positions_ok(t),
    ensures
        t == s,
{
    lemma_sort_of_sorted(s);
    assert(forall|k: int|
        0 <= k < t.len() ==> entry_dims(#[trigger] t[k]) == entry_dims(s[k]));
    assert forall|k: int| 0 <= k <= s.len() implies cursor_before(t, k) == cursor_before(
        s,
        k,
    ) by {
        lemma_cursor_congruence(t, s, k);
    }
    assert forall|k: int| 0 <= k < s.len() implies t[k] == s[k] by {
        let c = cursor_before(s, k);
        assert(t[k].0.w == s[k].0.w && t[k].0.h == s[k].0.h && t[k].1 == s[k].1);
        assert(if c.x + s[k].0.w >= ATLAS_WIDTH {
            s[k].0.x == 0 && s[k].0.y == c.y + c.shelf
        } else {
            s[k].0.x == c.x && s[k].0.y == c.y
        });
        assert(if c.x + t[k].0.w >= ATLAS_WIDTH {
            t[k].0.x == 0 && t[k].0.y == c.y + c.shelf
        } else {
            t[k].0.x == c.x && t[k].0.y == c.y
        });
    }
    assert(t =~= s);
}

/// Repacking never changes which extent a handle looks up to: for every
/// handle, `spec_lookup` before and after agree on presence and on the
/// registered width and height.
pub proof fn lemma_pack_preserves_lookup(
    s: Seq<(Rect, TextureHandle)>,
    t: Seq<(Rect, TextureHandle)>,
    handle: TextureHandle,
)
    requires
        handles_unique(s),
        forall|d: (int, int, TextureHandle)| dims_count(t, d) == dims_count(s, d),
    ensures
        match (spec_lookup(s, handle), spec_lookup(t, handle)) {
            (Some(a), Some(b)) => a.0.w == b.0.w && a.0.h == b.0.h && a.1 == handle && b.1
                == handle,
            (None, None) => true,
            _ => false,
        },
{
    lemma_counts_preserve_uniqueness(s, t);
    lemma_lookup_props(s, handle);
    lemma_lookup_props(t, handle);
    match spec_lookup(s, handle) {
        Some(a) => {
            let i = choose|i: int| 0 <= i < s.len() && #[trigger] s[i] == a;
            lemma_index_count_pos(s, i);
            lemma_count_pos_exists(t, entry_dims(s[i]));
            let j = choose|j: int|
                0 <= j < t.len() && entry_dims(#[trigger] t[j]) == entry_dims(s[i]);
            assert(t[j].1 == handle);
            match spec_lookup(t, handle) {
                Some(b) => {
                    let m = choose|m: int| 0 <= m < t.len() && #[trigger] t[m] == b;
                    assert(m == j);
                },
                None => {
                    assert(false);
                },
            }
        },
        None => {
            match spec_lookup(t, handle) {
                Some(b) => {
                    let m = choose|m: int| 0 <= m < t.len() && #[trigger] t[m] == b;
                    lemma_index_count_pos(t, m);
                    lemma_count_pos_exists(s, entry_dims(t[m]));
                    let i = choose|i: int|
                        0 <= i < s.len() && entry_dims(#[trigger] s[i]) == entry_dims(t[m]);
                    assert(s[i].1 == handle);
                    assert(false);
                },
                None => {},
            }
        },
    }
}

/// Registering an entry under a fresh handle leaves every other handle's
/// lookup unchanged.
pub proof fn lemma_lookup_push_other(
    s: Seq<(Rect, TextureHandle)>,
    e: (Rect, TextureHandle),
    handle: TextureHandle,
)
    requires
        e.1 != handle,
    ensures
        spec_lookup(s.push(e), handle) == spec_lookup(s, handle),
    decreases s.len(),
{
    if s.len() == 0 {
        assert(s.push(e).drop_first() =~= s);
    } else {
        assert(s.push(e).drop_first() =~= s.drop_first().push(e));
        lemma_lookup_push_other(s.drop_first(), e, handle);
    }
}

/// A handle never seen in `s` looks up, after registration, to exactly the
/// entry that was registered for it.
pub proof fn lemma_lookup_after_add(s: Seq<(Rect, TextureHandle)>, e: (Rect, TextureHandle))
    requires
        forall|i: int| 0 <= i < s.len() ==> (#[trigger] s[i]).1 != e.1,
    ensures
        spec_lookup(s.push(e), e.1) == Some(e),
{
    lemma_lookup_found(s.push(e), e.1, s.len() as int);
}

/// An append-only set of registered rectangles plus, after `pack`, their
/// packed positions. `width` and `height` describe the packed atlas.
pub struct TextureAtlas {
    pub counter: u32,
    pub rects: Vec<(Rect, TextureHandle)>,
    pub width: i32,
    pub height: i32,
}

impl TextureAtlas {
    /// The registered entries, in storage order.
    pub open spec fn entries(self) -> Seq<(Rect, TextureHandle)> {
        self.rects@
    }

    /// The handle the next registration will receive; also the number of
    /// registrations made so far.
    pub open spec fn next_handle(self) -> u32 {
        self.counter
    }

    /// Well-formedness: one entry per issued handle, all handles below the
    /// counter and pairwise distinct, and all extents bounded.
    pub open spec fn wf(self) -> bool {
        &&& self.entries().len() == self.next_handle()
        &&& handles_unique(self.entries())
        &&& forall|i: int|
            0 <= i < self.entries().len() ==> (#[trigger] self.entries()[i]).1
                < self.next_handle()
        &&& forall|i: int|
            0 <= i < self.entries().len() ==> rect_extent_ok(
                (#[trigger] self.entries()[i]).0,
            )
        &&& sum_heights(self.entries()) <= MAX_TOTAL_HEIGHT
    }

    /// An empty atlas: no registrations, no extent.
    pub fn new() -> (r: Self)
        ensures
            r.wf(),
            r.entries() == Seq::<(Rect, TextureHandle)>::empty(),
            r.next_handle() == 0,
            r.width == 0,
            r.height == 0,
    {
        Self { counter: 0, rects: Vec::new(), width: 0, height: 0 }
    }

    /// Registers a `w x h` rectangle and returns its handle. The rectangle's
    /// position stays `(0, 0)` until the next `pack`.
    pub fn add(&mut self, w: i32, h: i32) -> (handle: TextureHandle)
        requires
            old(self).wf(),
            0 <= w <= MAX_RECT_EXTENT,
            0 <= h <= MAX_RECT_EXTENT,
            sum_heights(old(self).entries()) + h <= MAX_TOTAL_HEIGHT,
            old(self).next_handle() < u32::MAX,
        ensures
            final(self).wf(),
            handle == old(self).next_handle(),
            final(self).entries() == old(self).entries().push(
                (Rect { x: 0, y: 0, w, h }, old(self).next_handle()),
            ),
            final(self).next_handle() == old(self).next_handle() + 1,
            final(self).width == old(self).width,
            final(self).height == old(self).height,
            sum_heights(final(self).entries()) == sum_heights(old(self).entries()) + h,
    {
        let handle = self.counter;
        self.counter = self.counter + 1;
        let rect = Rect { x: 0, y: 0, w, h };
        self.rects.push((rect, handle));
        proof {
            lemma_sum_heights_push(old(self).entries(), (rect, handle));
        }
        handle
    }

    /// Recomputes the positions of every registered rectangle: sorts them
    /// tallest-first, then walks them left to right across fixed-width
    /// shelves, starting a new shelf whenever the next rectangle would cross
    /// the atlas width. Afterwards no two rectangles overlap, every
    /// rectangle no wider than the atlas fits inside `[0, ATLAS_WIDTH)`,
    /// and `height` covers the tallest shelf stack. Packing an empty atlas
    /// is a precondition violation.
    pub fn pack(&mut self)
        requires
            old(self).wf(),
            old(self).entries().len() > 0,
        ensures
            final(self).wf(),
            final(self).next_handle() == old(self).next_handle(),
            final(self).entries().len() == old(self).entries().len(),
            same_dims_as_sorted(old(self).entries(), final(self).entries()),
            packed_layout(final(self).entries()),
            forall|d: (int, int, TextureHandle)|
                dims_count(final(self).entries(), d) == dims_count(old(self).entries(), d),
            sum_heights(final(self).entries()) == sum_heights(old(self).entries()),
            final(self).width == ATLAS_WIDTH,
            final(self).height == cursor_before(
                final(self).entries(),
                final(self).entries().len() as int,
            ).y + cursor_before(final(self).entries(), final(self).entries().len() as int).shelf,
            0 <= final(self).height,
            forall|i: int, j: int|
                0 <= i < j < final(self).entries().len() ==> rects_disjoint(
                    (#[trigger] final(self).entries()[i]).0,
                    (#[trigger] final(self).entries()[j]).0,
                ),
            forall|k: int|
                0 <= k < final(self).entries().len() ==> {
                    let r = (#[trigger] final(self).entries()[k]).0;
                    &&& 0 <= r.x
                    &&& 0 <= r.y
                    &&& r.w <= ATLAS_WIDTH ==> r.x + r.w <= ATLAS_WIDTH
                    &&& r.y + r.h <= final(self).height
                },
    {
        self.width = ATLAS_WIDTH;
        let sorted = sort_rects(&self.rects);
        proof {
            lemma_sort_by_height_props(old(self).entries());
            assert forall|i: int| 0 <= i < sorted@.len() implies rect_extent_ok(
                (#[trigger] sorted@[i]).0,
            ) && sorted@[i].1 < old(self).next_handle() by {
                lemma_index_count_pos(sorted@, i);
                lemma_count_pos_exists(old(self).entries(), entry_dims(sorted@[i]));
                let j = choose|j: int|
                    0 <= j < old(self).entries().len() && entry_dims(
                        #[trigger] old(self).entries()[j],
                    ) == entry_dims(sorted@[i]);
                assert(rect_extent_ok(old(self).entries()[j].0));
            }
        }
        let n = sorted.len();
        let mut placed: Vec<(Rect, TextureHandle)> = Vec::new();
        let mut x: i32 = 0;
        let mut y: i32 = 0;
        let mut shelf: i32 = sorted[0].0.h;
        let mut k: usize = 0;
        while k < n
            invariant
                0 <= k <= n,
                n == sorted@.len(),
                n == old(self).entries().len(),
                sorted@ == sort_by_height(old(self).entries()),
                sorted_desc(sorted@),
                forall|i: int|
                    0 <= i < sorted@.len() ==> rect_extent_ok((#[trigger] sorted@[i]).0),
                sum_heights(sorted@) == sum_heights(old(self).entries()),
                sum_heights(old(self).entries()) <= MAX_TOTAL_HEIGHT,
                self.counter == old(self).counter,
                self.width == ATLAS_WIDTH,
                placed@.len() == k,
                forall|i: int|
                    0 <= i < k ==> entry_dims(#[trigger] placed@[i]) == entry_dims(sorted@[i]),
                x == cursor_before(sorted@, k as int).x,
                y == cursor_before(sorted@, k as int).y,
                shelf == cursor_before(sorted@, k as int).shelf,
                0 <= x <= MAX_RECT_EXTENT,
                0 <= y,
                0 <= shelf <= MAX_RECT_EXTENT,
                y + shelf <= sorted@[0].0.h + sum_heights(sorted@.take(k as int)),
                forall|j: int| k <= j < n ==> (#[trigger] sorted@[j]).0.h <= shelf,
                forall|i: int|
                    0 <= i < k ==> {
                        let c = cursor_before(sorted@, i);
                        let e = #[trigger] placed@[i];
                        if c.x + e.0.w >= ATLAS_WIDTH {
                            e.0.x == 0 && e.0.y == c.y + c.shelf
                        } else {
                            e.0.x == c.x && e.0.y == c.y
                        }
                    },
                forall|i: int|
                    0 <= i < k ==> {
                        let r = (#[trigger] placed@[i]).0;
                        &&& 0 <= r.x
                        &&& 0 <= r.y <= y
                        &&& r.y + r.h <= y + shelf
                        &&& (r.y < y ==> r.y + r.h <= y)
                        &&& (r.y == y && r.h > 0 ==> r.x + r.w <= x)
                        &&& (r.w <= ATLAS_WIDTH ==> r.x + r.w <= ATLAS_WIDTH)
                    },
                forall|i: int, j: int|
                    0 <= i < j < k ==> rects_disjoint(
                        (#[trigger] placed@[i]).0,
                        (#[trigger] placed@[j]).0,
                    ),
            decreases n - k,
        {
            let entry = sorted[k];
            let w = entry.0.w;
            let h = entry.0.h;
            let hdl = entry.1;
            proof {
                lemma_sum_heights_take_step(sorted@, k as int);
                lemma_sum_heights_take_le(sorted@, k as int);
            }
            if x + w >= ATLAS_WIDTH {
                y = y + shelf;
                x = 0;
                shelf = h;
            }
            let rect = Rect { x, y, w, h };
            placed.push((rect, hdl));
            x = x + w;
            proof {
                let prev = cursor_before(sorted@, k as int);
                assert(cursor_before(sorted@, k as int + 1) == (if prev.x + sorted@[k as int].0.w
                    >= ATLAS_WIDTH {
                    Cursor {
                        x: sorted@[k as int].0.w as int,
                        y: prev.y + prev.shelf,
                        shelf: sorted@[k as int].0.h as int,
                    }
                } else {
                    Cursor { x: prev.x + sorted@[k as int].0.w, y: prev.y, shelf: prev.shelf }
                }));
                assert forall|i: int| 0 <= i < k implies rects_disjoint(
                    (#[trigger] placed@[i]).0,
                    rect,
                ) by {
                    let r = placed@[i].0;
                    if rect.y > r.y {
                        assert(r.y + r.h <= rect.y);
                    } else {
                        assert(r.y == rect.y);
                        if r.h > 0 {
                            assert(r.x + r.w <= rect.x);
                        } else {
                            assert(r.y + r.h <= rect.y);
                        }
                    }
                }
            }
            k = k + 1;
        }
        proof {
            lemma_sum_heights_take_le(sorted@, n as int);
        }
        self.rects = placed;
        self.height = y + shelf;
        proof {
            let fin = self.rects@;
            let s = sorted@;
            assert(fin =~= placed@);
            lemma_dims_count_congruence(fin, s);
            lemma_sum_heights_congruence(fin, s);
            lemma_counts_preserve_uniqueness(old(self).entries(), fin);
            assert forall|i: int| 0 <= i <= n as int implies cursor_before(fin, i)
                == cursor_before(s, i) by {
                lemma_cursor_congruence(fin, s, i);
            }
            assert(sorted_desc(fin)) by {
                assert(forall|i: int|
                    0 <= i < fin.len() ==> (#[trigger] fin[i]).0.h == s[i].0.h);
            }
            assert(pack_positions_ok(fin));
        }
    }

    /// Finds the entry registered under `handle`: its current rectangle and
    /// the handle itself. Returns `None` for a handle never issued.
    pub fn get_rect(&self, handle: &TextureHandle) -> (r: Option<(Rect, TextureHandle)>)
        ensures
            r == spec_lookup(self.entries(), *handle),
    {
        let mut i: usize = 0;
        while i < self.rects.len()
            invariant
                0 <= i <= self.rects.len(),
                forall|m: int| 0 <= m < i ==> self.rects@[m].1 != *handle,
            decreases self.rects.len() - i,
        {
            if self.rects[i].1 == *handle {
                proof {
                    lemma_lookup_found(self.entries(), *handle, i as int);
                }
                return Some(self.rects[i]);
            }
            i = i + 1;
        }
        proof {
            lemma_lookup_none(self.entries(), *handle);
        }
        None
    }
}

} // verus!
