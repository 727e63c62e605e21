//! What a frame of the viewer does and in which order, pass by pass.
use vstd::prelude::*;

use crate::flora::viewer::{given, Capture, Viewer, ViewerParts, ViewerPass};
use crate::shell::begin::Begun;

verus! {

/// The pass belongs into a frame that has a picture.
pub open spec fn is_due(v: Viewer, has: ViewerParts, capture: Capture, p: ViewerPass) -> bool {
    let debug = v.nanite && has.clusters && (v.mode is Triangle || v.mode is Cluster || v.mode is Lod);
    match p {
        ViewerPass::BeginRendering | ViewerPass::UiPass | ViewerPass::EndFrame => true,
        ViewerPass::Resize => has.renderer && has.resized,
        ViewerPass::Bones | ViewerPass::Shadow => has.renderer && has.plant,
        ViewerPass::ClusterCull | ViewerPass::ClusterDraw => debug,
        ViewerPass::Staging => has.renderer && has.staging,
        ViewerPass::Plant => has.renderer && has.plant && !debug,
        ViewerPass::BeginCapture | ViewerPass::EndCapture => has.renderer && capture is WithPanel,
        ViewerPass::CapturePanel => has.panel && capture is WithPanel,
        ViewerPass::CaptureClean => has.renderer && capture is Clean,
        ViewerPass::Panel => has.panel && !v.picture,
        ViewerPass::WritePicture => capture is Clean || capture is WithPanel,
        ViewerPass::Uniforms
        | ViewerPass::BeginScene
        | ViewerPass::EndScene
        | ViewerPass::Bloom
        | ViewerPass::Composite => has.renderer,
    }
}

/// How late in a frame a pass comes. What is computed comes before the scene is opened, the plant
/// after what stands behind it, the glow over the finished scene, the picture that is taken before
/// the panel is laid over what is shown, and it is written when the frame is over.
pub open spec fn rank(p: ViewerPass) -> int {
    match p {
        ViewerPass::Resize => 0,
        ViewerPass::Uniforms => 1,
        ViewerPass::Bones => 2,
        ViewerPass::Shadow => 3,
        ViewerPass::ClusterCull => 4,
        ViewerPass::BeginScene => 5,
        ViewerPass::Staging => 6,
        ViewerPass::ClusterDraw => 7,
        ViewerPass::Plant => 8,
        ViewerPass::EndScene => 9,
        ViewerPass::Bloom => 10,
        ViewerPass::BeginCapture => 11,
        ViewerPass::CapturePanel => 12,
        ViewerPass::EndCapture => 13,
        ViewerPass::CaptureClean => 14,
        ViewerPass::BeginRendering => 15,
        ViewerPass::Composite => 16,
        ViewerPass::UiPass => 17,
        ViewerPass::Panel => 18,
        ViewerPass::EndFrame => 19,
        ViewerPass::WritePicture => 20,
    }
}

/// The passes come in their order, none twice, with ranks from `lo` up to but not including `hi`.
spec fn ranked(s: Seq<ViewerPass>, lo: int, hi: int) -> bool {
    &&& forall|i: int| 0 <= i < s.len() ==> lo <= rank(#[trigger] s[i]) < hi
    &&& forall|i: int, j: int|
        0 <= i < j < s.len() ==> rank(#[trigger] s[i]) < rank(#[trigger] s[j])
}

proof fn ranked_join(a: Seq<ViewerPass>, b: Seq<ViewerPass>, lo: int, mid: int, hi: int)
    requires
        ranked(a, lo, mid),
        ranked(b, mid, hi),
        lo <= mid <= hi,
    ensures
        ranked(a + b, lo, hi),
{
    let s = a + b;
    assert forall|i: int| 0 <= i < s.len() implies lo <= rank(#[trigger] s[i]) < hi by {
        if i < a.len() {
            assert(s[i] == a[i]);
        } else {
            assert(s[i] == b[i - a.len()]);
        }
    }
    assert forall|i: int, j: int| 0 <= i < j < s.len() implies rank(#[trigger] s[i]) < rank(
        #[trigger] s[j],
    ) by {
        if j < a.len() {
            assert(s[i] == a[i] && s[j] == a[j]);
        } else if i >= a.len() {
            assert(s[i] == b[i - a.len()] && s[j] == b[j - a.len()]);
        } else {
            assert(s[i] == a[i] && s[j] == b[j - a.len()]);
        }
    }
}

/// One more pass, where the condition holds: the order goes on, and what the list then holds.
proof fn one_more(a: Seq<ViewerPass>, lo: int, mid: int, cond: bool, q: ViewerPass, p: ViewerPass)
    requires
        ranked(a, lo, mid),
        lo <= mid <= rank(q),
    ensures
        ranked(a + given(cond, q), lo, rank(q) + 1),
        (a + given(cond, q)).contains(p) <==> a.contains(p) || (cond && p == q),
{
    let b = given(cond, q);
    assert(ranked(b, rank(q), rank(q) + 1));
    assert(ranked(a, lo, rank(q)));
    ranked_join(a, b, lo, rank(q), rank(q) + 1);
    held_by_both(a, b, p);
    if cond {
        assert(b[0] == q);
    }
}

proof fn held_by_both(a: Seq<ViewerPass>, b: Seq<ViewerPass>, p: ViewerPass)
    ensures
        (a + b).contains(p) <==> a.contains(p) || b.contains(p),
{
    let s = a + b;
    if a.contains(p) {
        let i = choose|i: int| 0 <= i < a.len() && a[i] == p;
        assert(s[i] == p);
    }
    if b.contains(p) {
        let i = choose|i: int| 0 <= i < b.len() && b[i] == p;
        assert(s[a.len() + i] == p);
    }
    if s.contains(p) {
        let i = choose|i: int| 0 <= i < s.len() && s[i] == p;
        if i < a.len() {
            assert(a[i] == p);
        } else {
            assert(b[i - a.len()] == p);
        }
    }
}

proof fn scene_in_order(v: Viewer, has: ViewerParts, p: ViewerPass)
    ensures
        ranked(v.scene(has), 0, 11),
        v.scene(has).contains(p) <==> rank(p) < 11 && is_due(v, has, Capture::Nothing, p),
{
    let r = has.renderer;
    let c = v.clustered(has);
    let a0 = Seq::<ViewerPass>::empty();
    let a1 = given(r && has.resized, ViewerPass::Resize);
    one_more(a0, 0, 0, r && has.resized, ViewerPass::Resize, p);
    assert(a0 + a1 =~= a1);
    let a2 = a1 + given(r, ViewerPass::Uniforms);
    one_more(a1, 0, 1, r, ViewerPass::Uniforms, p);
    let a3 = a2 + given(r && has.plant, ViewerPass::Bones);
    one_more(a2, 0, 2, r && has.plant, ViewerPass::Bones, p);
    let a4 = a3 + given(r && has.plant, ViewerPass::Shadow);
    one_more(a3, 0, 3, r && has.plant, ViewerPass::Shadow, p);
    let a5 = a4 + given(c, ViewerPass::ClusterCull);
    one_more(a4, 0, 4, c, ViewerPass::ClusterCull, p);
    let a6 = a5 + given(r, ViewerPass::BeginScene);
    one_more(a5, 0, 5, r, ViewerPass::BeginScene, p);
    let a7 = a6 + given(r && has.staging, ViewerPass::Staging);
    one_more(a6, 0, 6, r && has.staging, ViewerPass::Staging, p);
    let a8 = a7 + given(c, ViewerPass::ClusterDraw);
    one_more(a7, 0, 7, c, ViewerPass::ClusterDraw, p);
    let a9 = a8 + given(!c && r && has.plant, ViewerPass::Plant);
    one_more(a8, 0, 8, !c && r && has.plant, ViewerPass::Plant, p);
    let a10 = a9 + given(r, ViewerPass::EndScene);
    one_more(a9, 0, 9, r, ViewerPass::EndScene, p);
    one_more(a10, 0, 10, r, ViewerPass::Bloom, p);
    assert(v.scene(has) == a10 + given(r, ViewerPass::Bloom));
}

proof fn output_in_order(v: Viewer, has: ViewerParts, capture: Capture, p: ViewerPass)
    ensures
        ranked(v.output(has, capture), 11, 21),
        v.output(has, capture).contains(p) <==> rank(p) >= 11 && is_due(v, has, capture, p),
{
    let r = has.renderer;
    let w = capture is WithPanel;
    let a0 = Seq::<ViewerPass>::empty();
    let a1 = given(r && w, ViewerPass::BeginCapture);
    one_more(a0, 11, 11, r && w, ViewerPass::BeginCapture, p);
    assert(a0 + a1 =~= a1);
    let a2 = a1 + given(has.panel && w, ViewerPass::CapturePanel);
    one_more(a1, 11, 12, has.panel && w, ViewerPass::CapturePanel, p);
    let a3 = a2 + given(r && w, ViewerPass::EndCapture);
    one_more(a2, 11, 13, r && w, ViewerPass::EndCapture, p);
    let a4 = a3 + given(r && capture is Clean, ViewerPass::CaptureClean);
    one_more(a3, 11, 14, r && capture is Clean, ViewerPass::CaptureClean, p);
    let a5 = a4 + given(true, ViewerPass::BeginRendering);
    one_more(a4, 11, 15, true, ViewerPass::BeginRendering, p);
    let a6 = a5 + given(r, ViewerPass::Composite);
    one_more(a5, 11, 16, r, ViewerPass::Composite, p);
    let a7 = a6 + given(true, ViewerPass::UiPass);
    one_more(a6, 11, 17, true, ViewerPass::UiPass, p);
    let a8 = a7 + given(has.panel && !v.picture, ViewerPass::Panel);
    one_more(a7, 11, 18, has.panel && !v.picture, ViewerPass::Panel, p);
    let a9 = a8 + given(true, ViewerPass::EndFrame);
    one_more(a8, 11, 19, true, ViewerPass::EndFrame, p);
    one_more(a9, 11, 20, capture !is Nothing, ViewerPass::WritePicture, p);
    assert(v.output(has, capture) == a9 + given(capture !is Nothing, ViewerPass::WritePicture));
}

/// A frame with a picture does what is due and nothing else.
pub proof fn viewer_does_what_is_due(
    v: Viewer,
    has: ViewerParts,
    capture: Capture,
    p: ViewerPass,
)
    ensures
        v.steps(has, Begun::Picture, capture).contains(p) <==> is_due(v, has, capture, p),
        v.scene(has).contains(p) <==> rank(p) <= 10 && is_due(v, has, capture, p),
        v.output(has, capture).contains(p) <==> rank(p) >= 11 && is_due(v, has, capture, p),
{
    scene_in_order(v, has, p);
    output_in_order(v, has, capture, p);
    held_by_both(v.scene(has), v.output(has, capture), p);
}

/// And it does each thing once, in its order.
pub proof fn viewer_goes_in_order(v: Viewer, has: ViewerParts, capture: Capture, i: int, j: int)
    requires
        0 <= i < j < v.steps(has, Begun::Picture, capture).len(),
    ensures
        rank(v.steps(has, Begun::Picture, capture)[i]) < rank(
            v.steps(has, Begun::Picture, capture)[j],
        ),
{
    scene_in_order(v, has, ViewerPass::EndFrame);
    output_in_order(v, has, capture, ViewerPass::EndFrame);
    ranked_join(v.scene(has), v.output(has, capture), 0, 11, 21);
    assert(ranked(v.steps(has, Begun::Picture, capture), 0, 21));
}

} // verus!
