//! Placeholder geometry inheritance: slide → slide layout → slide master.
//!
//! Placeholders are matched by `ph@type` and `ph@idx`; the first explicit
//! transform found along the chain wins. Shapes that are not placeholders use
//! their own transform. When nothing resolves for a placeholder, a documented
//! default box is used: the standard title area for `title`/`ctrTitle`, the
//! standard body area otherwise.

use vstd::prelude::*;
use crate::layout::Rect;
use crate::text::{chars_eq_str, chars_of};

verus! {

/// Resolved geometry of one shape, in EMU.
#[derive(Debug, Clone, Copy, PartialEq, Eq, Structural)]
pub struct ResolvedGeometry {
    pub rect: Rect,
    /// Rotation in 60,000ths of a degree.
    pub rotation: i64,
}

/// A placeholder's identity: its `ph@type` and optional `ph@idx`.
#[derive(Debug, Clone, PartialEq, Eq, Hash)]
pub struct PlaceholderKey {
    pub ph_type: String,
    pub idx: Option<u32>,
}

/// Geometry of a shape's `spPr > a:xfrm`.
#[derive(Debug, Clone, Copy, PartialEq, Eq, Structural)]
pub struct ShapeXfrm {
    pub x: i64,
    pub y: i64,
    pub cx: i64,
    pub cy: i64,
    /// Rotation in 60,000ths of a degree.
    pub rot: i64,
}

/// What geometry resolution needs to know of a shape.
#[derive(Debug, Clone, PartialEq)]
pub struct ShapeDescriptor {
    pub placeholder: Option<PlaceholderKey>,
    pub xfrm: Option<ShapeXfrm>,
}

/// The shapes of a layout or master part: the sources of inherited geometry.
#[derive(Debug, Clone)]
pub struct PartShapes {
    pub shapes: Vec<ShapeDescriptor>,
}

impl Default for PartShapes {
    fn default() -> (r: PartShapes)
        ensures
            r.shapes@.len() == 0,
    {
        PartShapes { shapes: Vec::new() }
    }
}

/// Whether a candidate placeholder type answers a query type: equal, or the
/// title/centered-title and body/subtitle variants of each other.
pub open spec fn ph_type_matches_spec(candidate: Seq<char>, query: Seq<char>) -> bool {
    ||| candidate == query
    ||| (query == /* title */ seq!['t', 'i', 't', 'l', 'e'] && candidate == /* ctrTitle */ seq!['c', 't', 'r', 'T', 'i', 't', 'l', 'e'])
    ||| (query == /* ctrTitle */ seq!['c', 't', 'r', 'T', 'i', 't', 'l', 'e'] && candidate == /* title */ seq!['t', 'i', 't', 'l', 'e'])
    ||| (query == /* body */ seq!['b', 'o', 'd', 'y'] && candidate == /* subTitle */ seq!['s', 'u', 'b', 'T', 'i', 't', 'l', 'e'])
    ||| (query == /* subTitle */ seq!['s', 'u', 'b', 'T', 'i', 't', 'l', 'e'] && candidate == /* body */ seq!['b', 'o', 'd', 'y'])
}

/// Whether shape descriptor `sd` is a placeholder answering `key`: its type
/// matches, and when both carry an index, the indices are equal.
pub open spec fn key_matches(sd: ShapeDescriptor, key: PlaceholderKey) -> bool {
    match sd.placeholder {
        Some(pk) => {
            &&& ph_type_matches_spec(pk.ph_type@, key.ph_type@)
            &&& !(pk.idx is Some && key.idx is Some && pk.idx != key.idx)
        },
        None => false,
    }
}

/// The transform of the first shape from index `i` on that answers `key` and
/// has a transform.
pub open spec fn find_xfrm_from(shapes: Seq<ShapeDescriptor>, key: PlaceholderKey, i: int) -> Option<ShapeXfrm>
    decreases shapes.len() - i,
{
    if i < 0 || i >= shapes.len() {
        None
    } else if key_matches(shapes[i], key) && shapes[i].xfrm is Some {
        shapes[i].xfrm
    } else {
        find_xfrm_from(shapes, key, i + 1)
    }
}

/// The fallback box for a placeholder type.
pub open spec fn fallback_rect(ph_type: Seq<char>) -> Rect {
    if ph_type == /* title */ seq!['t', 'i', 't', 'l', 'e'] || ph_type == /* ctrTitle */ seq!['c', 't', 'r', 'T', 'i', 't', 'l', 'e'] {
        Rect { x: 457200, y: 274638, w: 8229600, h: 1143000 }
    } else {
        Rect { x: 457200, y: 1600200, w: 8229600, h: 4525963 }
    }
}

/// Geometry given by a transform.
pub open spec fn geometry_of(x: ShapeXfrm) -> ResolvedGeometry {
    ResolvedGeometry { rect: Rect { x: x.x, y: x.y, w: x.cx, h: x.cy }, rotation: x.rot }
}

/// The geometry a shape resolves to along the slide → layout → master chain.
pub open spec fn resolve_spec(shape: ShapeDescriptor, layout: Seq<ShapeDescriptor>, master: Seq<ShapeDescriptor>) -> Option<ResolvedGeometry> {
    match shape.placeholder {
        None => match shape.xfrm {
            Some(x) => Some(geometry_of(x)),
            None => None,
        },
        Some(key) => match shape.xfrm {
            Some(x) => Some(geometry_of(x)),
            None => match find_xfrm_from(layout, key, 0) {
                Some(x) => Some(geometry_of(x)),
                None => match find_xfrm_from(master, key, 0) {
                    Some(x) => Some(geometry_of(x)),
                    None => Some(ResolvedGeometry { rect: fallback_rect(key.ph_type@), rotation: 0 }),
                },
            },
        },
    }
}

fn ph_type_matches(candidate: &str, query: &str) -> (r: bool)
    ensures
        r == ph_type_matches_spec(candidate@, query@),
{
    proof {
        reveal_strlit("title");
        reveal_strlit("ctrTitle");
        reveal_strlit("body");
        reveal_strlit("subTitle");
        assert("title"@ == /* title */ seq!['t', 'i', 't', 'l', 'e']);
        assert("ctrTitle"@ == /* ctrTitle */ seq!['c', 't', 'r', 'T', 'i', 't', 'l', 'e']);
        assert("body"@ == /* body */ seq!['b', 'o', 'd', 'y']);
        assert("subTitle"@ == /* subTitle */ seq!['s', 'u', 'b', 'T', 'i', 't', 'l', 'e']);
    }
    let c = chars_of(candidate);
    let q = chars_of(query);
    if chars_eq_str(&c, query) {
        return true;
    }
    if chars_eq_str(&q, "title") {
        chars_eq_str(&c, "ctrTitle")
    } else if chars_eq_str(&q, "ctrTitle") {
        chars_eq_str(&c, "title")
    } else if chars_eq_str(&q, "body") {
        chars_eq_str(&c, "subTitle")
    } else if chars_eq_str(&q, "subTitle") {
        chars_eq_str(&c, "body")
    } else {
        false
    }
}

impl PartShapes {
    /// The transform of the first shape that answers `key` and has one: the
    /// types must match (title/ctrTitle and body/subTitle count as matching),
    /// and when both sides carry an index the indices must be equal.
    pub fn find_placeholder_xfrm(&self, key: &PlaceholderKey) -> (r: Option<ShapeXfrm>)
        ensures
            r == find_xfrm_from(self.shapes@, *key, 0),
    {
        let mut i: usize = 0;
        while i < self.shapes.len()
            invariant
                i <= self.shapes@.len(),
                find_xfrm_from(self.shapes@, *key, 0) == find_xfrm_from(self.shapes@, *key, i as int),
            decreases self.shapes@.len() - i,
        {
            let sd = &self.shapes[i];
            match &sd.placeholder {
                Some(pk) => {
                    let types_match = ph_type_matches(pk.ph_type.as_str(), key.ph_type.as_str());
                    let idx_clash = match (pk.idx, key.idx) {
                        (Some(a), Some(b)) => a != b,
                        _ => false,
                    };
                    if types_match && !idx_clash {
                        if let Some(x) = sd.xfrm {
                            return Some(x);
                        }
                    }
                },
                None => {},
            }
            i = i + 1;
        }
        None
    }
}

/// The fallback box for a placeholder type: the standard title area for
/// `title` and `ctrTitle`, the standard body area for anything else.
pub fn default_fallback(ph_type: &str) -> (r: Rect)
    ensures
        r == fallback_rect(ph_type@),
{
    proof {
        reveal_strlit("title");
        reveal_strlit("ctrTitle");
        assert("title"@ == /* title */ seq!['t', 'i', 't', 'l', 'e']);
        assert("ctrTitle"@ == /* ctrTitle */ seq!['c', 't', 'r', 'T', 'i', 't', 'l', 'e']);
    }
    let t = chars_of(ph_type);
    if chars_eq_str(&t, "title") || chars_eq_str(&t, "ctrTitle") {
        Rect { x: 457200, y: 274638, w: 8229600, h: 1143000 }
    } else {
        Rect { x: 457200, y: 1600200, w: 8229600, h: 4525963 }
    }
}

fn geometry_from(x: ShapeXfrm) -> (r: ResolvedGeometry)
    ensures
        r == geometry_of(x),
{
    ResolvedGeometry { rect: Rect { x: x.x, y: x.y, w: x.cx, h: x.cy }, rotation: x.rot }
}

/// Resolve one shape's geometry. A shape that is not a placeholder uses its
/// own transform (and has none without one). A placeholder uses its own
/// transform, else the layout's, else the master's, else the fallback box.
pub fn resolve_shape_geometry(shape: &ShapeDescriptor, layout: &PartShapes, master: &PartShapes) -> (r: Option<ResolvedGeometry>)
    ensures
        r == resolve_spec(*shape, layout.shapes@, master.shapes@),
{
    match &shape.placeholder {
        None => match shape.xfrm {
            Some(x) => Some(geometry_from(x)),
            None => None,
        },
        Some(key) => {
            if let Some(x) = shape.xfrm {
                return Some(geometry_from(x));
            }
            if let Some(x) = layout.find_placeholder_xfrm(key) {
                return Some(geometry_from(x));
            }
            if let Some(x) = master.find_placeholder_xfrm(key) {
                return Some(geometry_from(x));
            }
            Some(ResolvedGeometry { rect: default_fallback(key.ph_type.as_str()), rotation: 0 })
        },
    }
}

/// Resolve every shape of a slide, in order.
pub fn resolve_all_geometry(slide_shapes: &[ShapeDescriptor], layout: &PartShapes, master: &PartShapes) -> (r: Vec<Option<ResolvedGeometry>>)
    ensures
        r@.len() == slide_shapes@.len(),
        forall|i: int| 0 <= i < r@.len() ==> r@[i] == resolve_spec(slide_shapes@[i], layout.shapes@, master.shapes@),
{
    let mut out: Vec<Option<ResolvedGeometry>> = Vec::new();
    let mut i: usize = 0;
    while i < slide_shapes.len()
        invariant
            i <= slide_shapes@.len(),
            out@.len() == i,
            forall|k: int| 0 <= k < i ==> out@[k] == resolve_spec(slide_shapes@[k], layout.shapes@, master.shapes@),
        decreases slide_shapes@.len() - i,
    {
        out.push(resolve_shape_geometry(&slide_shapes[i], layout, master));
        i = i + 1;
    }
    out
}

/// A shape that is no placeholder answers no placeholder query.
pub proof fn lemma_non_placeholder_never_matches(sd: ShapeDescriptor, key: PlaceholderKey)
    requires
        sd.placeholder is None,
    ensures
        !key_matches(sd, key),
{
}

/// How a placeholder shape answers a placeholder query: the types must be
/// equal or the title/centred title or body/subtitle variants of each other,
/// and when both sides carry an index, the indices must be equal.
pub proof fn lemma_placeholder_matching(sd: ShapeDescriptor, pk: PlaceholderKey, key: PlaceholderKey)
    requires
        sd.placeholder == Some(pk),
    ensures
        pk.idx is Some && key.idx is Some && pk.idx != key.idx ==> !key_matches(sd, key),
        key.idx is None || pk.idx is None || pk.idx == key.idx ==> {
            &&& pk.ph_type@ == key.ph_type@ ==> key_matches(sd, key)
            &&& pk.ph_type@ == /* ctrTitle */ seq!['c', 't', 'r', 'T', 'i', 't', 'l', 'e'] && key.ph_type@ == /* title */ seq!['t', 'i', 't', 'l', 'e'] ==> key_matches(sd, key)
            &&& pk.ph_type@ == /* title */ seq!['t', 'i', 't', 'l', 'e'] && key.ph_type@ == /* ctrTitle */ seq!['c', 't', 'r', 'T', 'i', 't', 'l', 'e'] ==> key_matches(sd, key)
            &&& pk.ph_type@ == /* subTitle */ seq!['s', 'u', 'b', 'T', 'i', 't', 'l', 'e'] && key.ph_type@ == /* body */ seq!['b', 'o', 'd', 'y'] ==> key_matches(sd, key)
            &&& pk.ph_type@ == /* body */ seq!['b', 'o', 'd', 'y'] && key.ph_type@ == /* subTitle */ seq!['s', 'u', 'b', 'T', 'i', 't', 'l', 'e'] ==> key_matches(sd, key)
        },
        pk.ph_type@ != key.ph_type@ && !(pk.ph_type@ == /* ctrTitle */ seq!['c', 't', 'r', 'T', 'i', 't', 'l', 'e'] && key.ph_type@ == /* title */ seq!['t', 'i', 't', 'l', 'e']) && !(pk.ph_type@
            == /* title */ seq!['t', 'i', 't', 'l', 'e'] && key.ph_type@ == /* ctrTitle */ seq!['c', 't', 'r', 'T', 'i', 't', 'l', 'e']) && !(pk.ph_type@ == /* subTitle */ seq!['s', 'u', 'b', 'T', 'i', 't', 'l', 'e'] && key.ph_type@ == /* body */ seq!['b', 'o', 'd', 'y'])
            && !(pk.ph_type@ == /* body */ seq!['b', 'o', 'd', 'y'] && key.ph_type@ == /* subTitle */ seq!['s', 'u', 'b', 'T', 'i', 't', 'l', 'e']) ==> !key_matches(sd, key),
{
}

/// `find_xfrm_from` from `k` lands on index `i` when shape `i` answers `key`
/// with a transform and none between `k` and `i` does.
proof fn lemma_find_xfrm_at(shapes: Seq<ShapeDescriptor>, key: PlaceholderKey, k: int, i: int)
    requires
        0 <= k <= i < shapes.len(),
        key_matches(shapes[i], key),
        shapes[i].xfrm is Some,
        forall|j: int| k <= j < i ==> !(key_matches(#[trigger] shapes[j], key) && shapes[j].xfrm is Some),
    ensures
        find_xfrm_from(shapes, key, k) == shapes[i].xfrm,
    decreases i - k,
{
    if k < i {
        lemma_find_xfrm_at(shapes, key, k + 1, i);
    }
}

/// `find_xfrm_from` from `k` finds nothing when no shape from `k` on answers
/// `key` with a transform.
proof fn lemma_find_xfrm_none(shapes: Seq<ShapeDescriptor>, key: PlaceholderKey, k: int)
    requires
        0 <= k,
        forall|j: int| k <= j < shapes.len() ==> !(key_matches(#[trigger] shapes[j], key) && shapes[j].xfrm is Some),
    ensures
        find_xfrm_from(shapes, key, k) is None,
    decreases shapes.len() - k,
{
    if k < shapes.len() {
        lemma_find_xfrm_none(shapes, key, k + 1);
    }
}

/// A placeholder without a transform of its own takes the transform of the
/// first layout shape that answers it and has one, whatever the master holds:
/// the layout is consulted before the master.
pub proof fn lemma_layout_before_master(shape: ShapeDescriptor, layout: Seq<ShapeDescriptor>, master: Seq<ShapeDescriptor>, i: int)
    requires
        shape.placeholder is Some,
        shape.xfrm is None,
        0 <= i < layout.len(),
        key_matches(layout[i], shape.placeholder.unwrap()),
        layout[i].xfrm is Some,
        forall|j: int| 0 <= j < i ==> !(key_matches(#[trigger] layout[j], shape.placeholder.unwrap()) && layout[j].xfrm is Some),
    ensures
        layout[i].xfrm matches Some(t) && resolve_spec(shape, layout, master) == Some(
            (ResolvedGeometry { rect: Rect { x: t.x, y: t.y, w: t.cx, h: t.cy }, rotation: t.rot }),
        ),
{
    lemma_find_xfrm_at(layout, shape.placeholder.unwrap(), 0, i);
}

/// The master is consulted only when no layout shape answers the placeholder
/// with a transform: then the first master shape that does gives the geometry.
pub proof fn lemma_master_after_layout(shape: ShapeDescriptor, layout: Seq<ShapeDescriptor>, master: Seq<ShapeDescriptor>, i: int)
    requires
        shape.placeholder is Some,
        shape.xfrm is None,
        forall|j: int| 0 <= j < layout.len() ==> !(key_matches(#[trigger] layout[j], shape.placeholder.unwrap()) && layout[j].xfrm is Some),
        0 <= i < master.len(),
        key_matches(master[i], shape.placeholder.unwrap()),
        master[i].xfrm is Some,
        forall|j: int| 0 <= j < i ==> !(key_matches(#[trigger] master[j], shape.placeholder.unwrap()) && master[j].xfrm is Some),
    ensures
        master[i].xfrm matches Some(t) && resolve_spec(shape, layout, master) == Some(
            (ResolvedGeometry { rect: Rect { x: t.x, y: t.y, w: t.cx, h: t.cy }, rotation: t.rot }),
        ),
{
    lemma_find_xfrm_none(layout, shape.placeholder.unwrap(), 0);
    lemma_find_xfrm_at(master, shape.placeholder.unwrap(), 0, i);
}

/// When neither the shape, the layout nor the master gives a placeholder a
/// transform, it gets the fallback box of its type, unrotated.
pub proof fn lemma_fallback_when_unresolved(shape: ShapeDescriptor, layout: Seq<ShapeDescriptor>, master: Seq<ShapeDescriptor>)
    requires
        shape.placeholder is Some,
        shape.xfrm is None,
        forall|j: int| 0 <= j < layout.len() ==> !(key_matches(#[trigger] layout[j], shape.placeholder.unwrap()) && layout[j].xfrm is Some),
        forall|j: int| 0 <= j < master.len() ==> !(key_matches(#[trigger] master[j], shape.placeholder.unwrap()) && master[j].xfrm is Some),
    ensures
        resolve_spec(shape, layout, master) == Some(
            (ResolvedGeometry { rect: fallback_rect(shape.placeholder.unwrap().ph_type@), rotation: 0 }),
        ),
        shape.placeholder.unwrap().ph_type@ == /* title */ seq!['t', 'i', 't', 'l', 'e'] || shape.placeholder.unwrap().ph_type@ == /* ctrTitle */ seq!['c', 't', 'r', 'T', 'i', 't', 'l', 'e']
            ==> resolve_spec(shape, layout, master) == Some(
            (ResolvedGeometry { rect: Rect { x: 457200, y: 274638, w: 8229600, h: 1143000 }, rotation: 0 }),
        ),
        shape.placeholder.unwrap().ph_type@ != /* title */ seq!['t', 'i', 't', 'l', 'e'] && shape.placeholder.unwrap().ph_type@ != /* ctrTitle */ seq!['c', 't', 'r', 'T', 'i', 't', 'l', 'e']
            ==> resolve_spec(shape, layout, master) == Some(
            (ResolvedGeometry { rect: Rect { x: 457200, y: 1600200, w: 8229600, h: 4525963 }, rotation: 0 }),
        ),
{
    lemma_find_xfrm_none(layout, shape.placeholder.unwrap(), 0);
    lemma_find_xfrm_none(master, shape.placeholder.unwrap(), 0);
}

/// A placeholder always resolves to some geometry: its own, an inherited one,
/// or the fallback box.
pub proof fn lemma_placeholder_always_resolves(shape: ShapeDescriptor, layout: Seq<ShapeDescriptor>, master: Seq<ShapeDescriptor>)
    requires
        shape.placeholder is Some,
    ensures
        resolve_spec(shape, layout, master) is Some,
{
}

/// A shape that is no placeholder inherits nothing: without a transform of
/// its own it has no geometry.
pub proof fn lemma_non_placeholder_without_xfrm_unresolved(shape: ShapeDescriptor, layout: Seq<ShapeDescriptor>, master: Seq<ShapeDescriptor>)
    requires
        shape.placeholder is None,
        shape.xfrm is None,
    ensures
        resolve_spec(shape, layout, master) is None,
{
}

/// A shape's own transform takes priority over anything inherited.
pub proof fn lemma_own_xfrm_wins(shape: ShapeDescriptor, layout: Seq<ShapeDescriptor>, master: Seq<ShapeDescriptor>)
    requires
        shape.xfrm is Some,
    ensures
        resolve_spec(shape, layout, master) == Some(geometry_of(shape.xfrm.unwrap())),
{
}

} // verus!
