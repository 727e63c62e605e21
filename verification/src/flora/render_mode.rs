//! How a tree is shown, and how its leaves are carded.
use vstd::prelude::*;

use crate::text::{eq_ignore_case, same_word};

verus! {

/// A view of the tree. The last three show the virtualised geometry of its branches.
#[derive(Clone, Copy, Debug, PartialEq, Eq, Structural)]
pub enum RenderMode {
    Lit,
    Unlit,
    Wireframe,
    Normals,
    Ao,
    Triangle,
    Cluster,
    Lod,
}

impl Default for RenderMode {
    fn default() -> (m: Self)
        ensures
            m == RenderMode::Lit,
    {
        RenderMode::Lit
    }
}

impl RenderMode {
    /// The arm of the fragment shader: 1 unlit, 2 normals, 3 occlusion, 0 for all others.
    pub fn debug_mode(self) -> (n: u32)
        ensures
            n == (match self {
                RenderMode::Unlit => 1u32,
                RenderMode::Normals => 2u32,
                RenderMode::Ao => 3u32,
                _ => 0u32,
            }),
    {
        match self {
            RenderMode::Unlit => 1,
            RenderMode::Normals => 2,
            RenderMode::Ao => 3,
            _ => 0,
        }
    }

    /// Drawn with the line pipelines.
    pub fn is_wireframe(self) -> (b: bool)
        ensures
            b == (self is Wireframe),
    {
        matches!(self, RenderMode::Wireframe)
    }

    /// Draws the branches through the cluster renderer.
    pub fn uses_nanite(self) -> (b: bool)
        ensures
            b == (self is Triangle || self is Cluster || self is Lod),
    {
        matches!(self, RenderMode::Triangle | RenderMode::Cluster | RenderMode::Lod)
    }

    /// The colour mode of the cluster renderer: 3 by triangle, 4 by cluster, 5 by level, 0
    /// where it is not used.
    pub fn nanite_debug_mode(self) -> (n: u32)
        ensures
            n == (match self {
                RenderMode::Triangle => 3u32,
                RenderMode::Cluster => 4u32,
                RenderMode::Lod => 5u32,
                _ => 0u32,
            }),
    {
        match self {
            RenderMode::Triangle => 3,
            RenderMode::Cluster => 4,
            RenderMode::Lod => 5,
            _ => 0,
        }
    }
}

/// The cluster renderer is used exactly in the modes that have a colour mode there.
pub proof fn nanite_modes_agree(m: RenderMode)
    ensures
        (m is Triangle || m is Cluster || m is Lod) <==> (match m {
            RenderMode::Triangle => 3u32,
            RenderMode::Cluster => 4u32,
            RenderMode::Lod => 5u32,
            _ => 0u32,
        }) != 0,
{
}

/// One card per cluster of leaves, or one per leaf.
#[derive(Clone, Copy, Debug, PartialEq, Eq, Structural)]
pub enum LeafMode {
    Cluster,
    Single,
}

impl Default for LeafMode {
    fn default() -> (m: Self)
        ensures
            m == LeafMode::Cluster,
    {
        LeafMode::Cluster
    }
}

impl LeafMode {
    /// The mode that a setting asks for: single leaves if it says so, else clusters.
    pub fn from_setting(setting: Option<&str>) -> (m: Self)
        ensures
            m == (match setting {
                Some(text) => if same_word(text@, "single"@) {
                    LeafMode::Single
                } else {
                    LeafMode::Cluster
                },
                None => LeafMode::Cluster,
            }),
    {
        match setting {
            Some(text) => {
                if eq_ignore_case(text, "single") {
                    LeafMode::Single
                } else {
                    LeafMode::Cluster
                }
            },
            None => LeafMode::Cluster,
        }
    }
}

/// The triangles of a tree from the index counts of its branches and, if it has any, leaves.
pub fn triangle_count(branch_indices: u32, leaf_indices: Option<u32>) -> (n: u32)
    requires
        branch_indices + (match leaf_indices {
            Some(l) => l as int,
            None => 0,
        }) <= u32::MAX,
    ensures
        n == (branch_indices + (match leaf_indices {
            Some(l) => l as int,
            None => 0,
        })) / 3,
{
    let leaf: u32 = match leaf_indices {
        Some(l) => l,
        None => 0,
    };
    (branch_indices + leaf) / 3
}

/// The draw calls of a tree: one for its branches and one for its leaves, if it has any.
pub fn draw_call_count(has_leaves: bool) -> (n: u32)
    ensures
        n == (if has_leaves {
            2u32
        } else {
            1u32
        }),
{
    if has_leaves {
        2
    } else {
        1
    }
}

} // verus!
