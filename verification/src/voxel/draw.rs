//! How the leaves are drawn and stood on.
use vstd::prelude::*;

use crate::voxel::chunk_key::ChunkKey;

verus! {

/// The shadow maps of the sun, from near to far.
pub const SHADOW_CASCADES: u32 = 3;

/// What a shader binding holds.
#[derive(Clone, Copy, Debug, PartialEq, Eq, Structural)]
pub enum BindingKind {
    Uniforms,
    ShadowMap,
    Sampler,
}

/// A shader binding.
#[derive(Clone, Copy, Debug, PartialEq, Eq, Structural)]
pub struct Binding {
    pub number: u32,
    pub kind: BindingKind,
    /// The vertex stage sees it too, not the fragment stage alone.
    pub vertex: bool,
}

/// The bindings of terrain that receives shadows: the frame's uniforms, then each shadow map,
/// then the sampler of them all.
pub open spec fn shadow_bindings() -> Seq<Binding> {
    Seq::new(
        (SHADOW_CASCADES + 2) as nat,
        |n: int|
            Binding {
                number: n as u32,
                kind: if n == 0 {
                    BindingKind::Uniforms
                } else if n <= SHADOW_CASCADES {
                    BindingKind::ShadowMap
                } else {
                    BindingKind::Sampler
                },
                vertex: n == 0,
            },
    )
}

/// The bindings of terrain that receives shadows.
pub fn csm_bindings() -> (list: Vec<Binding>)
    ensures
        list@ == shadow_bindings(),
{
    let mut list: Vec<Binding> = Vec::new();
    list.push(Binding { number: 0, kind: BindingKind::Uniforms, vertex: true });
    let mut c: u32 = 0;
    while c < SHADOW_CASCADES
        invariant
            c <= SHADOW_CASCADES,
            list@ == shadow_bindings().take(c as int + 1),
        decreases SHADOW_CASCADES - c,
    {
        list.push(Binding { number: 1 + c, kind: BindingKind::ShadowMap, vertex: false });
        c = c + 1;
        assert(list@ =~= shadow_bindings().take(c as int + 1));
    }
    list.push(Binding { number: 1 + SHADOW_CASCADES, kind: BindingKind::Sampler, vertex: false });
    assert(list@ =~= shadow_bindings());
    list
}

/// A leaf to draw.
#[derive(Clone, Copy, Debug, PartialEq, Eq)]
pub struct LeafDraw {
    pub key: ChunkKey,
    /// The seed of its colour in the views that tell leaves apart.
    pub id: u32,
    pub level: u32,
    /// The GPU mesh, by its handle.
    pub mesh: u64,
    pub index_count: u32,
}

/// The farthest of the places where a ray meets the ground: one stands on top of what caves
/// leave below. Distances are whole, or the bit patterns of positive numbers, which are in the
/// same order.
pub fn farthest_hit(hits: &Vec<Option<u64>>) -> (far: Option<u64>)
    ensures
        far is None <==> forall|i: int| 0 <= i < hits.len() ==> (#[trigger] hits[i]) is None,
        far matches Some(d) ==> {
            &&& hits@.contains(Some(d))
            &&& forall|i: int|
                0 <= i < hits.len() ==> (#[trigger] hits[i] matches Some(h) ==> h <= d)
        },
{
    let mut far: Option<u64> = None;
    let mut i: usize = 0;
    while i < hits.len()
        invariant
            i <= hits.len(),
            far is None <==> forall|j: int| 0 <= j < i ==> (#[trigger] hits[j]) is None,
            far matches Some(d) ==> {
                &&& hits@.contains(Some(d))
                &&& forall|j: int| 0 <= j < i ==> (#[trigger] hits[j] matches Some(h) ==> h <= d)
            },
        decreases hits.len() - i,
    {
        if let Some(h) = hits[i] {
            let farther: bool = match far {
                Some(d) => h > d,
                None => true,
            };
            if farther {
                far = Some(h);
                assert(hits@[i as int] == Some(h));
            }
        }
        i = i + 1;
    }
    far
}

/// The bindings are numbered from nought, with the uniforms first, which the vertex stage alone
/// sees beside the fragment stage, the sampler last, and a shadow map for each cascade between.
pub proof fn bindings_are_in_order(n: int)
    ensures
        shadow_bindings().len() == 5,
        0 <= n < 5 ==> shadow_bindings()[n].number == n,
        0 <= n < 5 ==> (shadow_bindings()[n].vertex <==> n == 0),
        shadow_bindings()[0].kind is Uniforms,
        1 <= n <= 3 ==> shadow_bindings()[n].kind is ShadowMap,
        shadow_bindings()[4].kind is Sampler,
{
}

} // verus!
