//! The status line in the window's title, and the readouts on the panel.
use vstd::prelude::*;

use crate::shell::place::Place;
use crate::text::{decimal, push_decimal};

verus! {

/// How the quadtree of the planet is doing.
#[derive(Clone, Copy, Debug, PartialEq, Eq, Structural)]
pub struct PlanetViewStats {
    pub resident_count: u64,
    pub build_queue_depth: u64,
    pub pending_upload_count: u64,
    pub min_lod_level: u8,
    pub max_lod_level: u8,
}

/// After how many frames the frame rate on display is renewed.
pub const SMOOTHED: u32 = 16;

/// Counts the frames over which the frame rate is averaged.
pub struct Hud {
    frames: u32,
}

impl Hud {
    /// The frames since the frame rate was last renewed.
    pub closed spec fn frames(&self) -> u32 {
        self.frames
    }

    /// Fewer frames are counted than are averaged over.
    pub open spec fn wf(&self) -> bool {
        self.frames() < SMOOTHED
    }

    /// No frame counted yet.
    pub fn new() -> (h: Self)
        ensures
            h.frames() == 0,
            h.wf(),
    {
        Hud { frames: 0 }
    }

    /// Counts a frame. When enough are counted, their number is given, and the count starts
    /// again.
    pub fn update(&mut self) -> (over: Option<u32>)
        requires
            old(self).wf(),
        ensures
            final(self).wf(),
            over == (if old(self).frames() + 1 == 16 {
                Some(16u32)
            } else {
                None
            }),
            final(self).frames() == (if over is Some {
                0
            } else {
                old(self).frames() + 1
            }),
    {
        self.frames = self.frames + 1;
        if self.frames >= SMOOTHED {
            let n: u32 = self.frames;
            self.frames = 0;
            Some(n)
        } else {
            None
        }
    }
}

impl Default for Hud {
    fn default() -> (h: Self)
        ensures
            h.frames() == 0,
            h.wf(),
    {
        Hud::new()
    }
}

/// What the status line says of the quadtree.
pub open spec fn stats_text(ps: PlanetViewStats) -> Seq<char> {
    " | LOD chunks="@ + decimal(ps.resident_count as nat) + " q="@ + decimal(
        ps.build_queue_depth as nat,
    ) + " lv="@ + decimal(ps.min_lod_level as nat) + "-"@ + decimal(ps.max_lod_level as nat)
}

/// The status line: where the viewer is, how high, in which view, how fast, and how the
/// quadtree is doing. Height and frame rate are given as text.
pub open spec fn title_text(
    place: Place,
    altitude: Seq<char>,
    view: u32,
    wireframe: bool,
    fps: Seq<char>,
    stats: Option<PlanetViewStats>,
) -> Seq<char> {
    "enki | "@ + place.name() + " | "@ + altitude + " | M"@ + decimal(view as nat) + (
    if wireframe {
        "+WF"@
    } else {
        ""@
    }) + " | FPS: "@ + fps + (match stats {
        Some(ps) => stats_text(ps),
        None => ""@,
    })
}

fn push_stats(s: &mut String, ps: PlanetViewStats)
    ensures
        final(s)@ == old(s)@ + stats_text(ps),
{
    s.append(" | LOD chunks=");
    push_decimal(s, ps.resident_count);
    s.append(" q=");
    push_decimal(s, ps.build_queue_depth);
    s.append(" lv=");
    push_decimal(s, ps.min_lod_level as u64);
    s.append("-");
    push_decimal(s, ps.max_lod_level as u64);
    assert(s@ =~= old(s)@ + stats_text(ps));
}

/// The status line.
pub fn title(
    place: Place,
    altitude: &str,
    view: u32,
    wireframe: bool,
    fps: &str,
    stats: Option<PlanetViewStats>,
) -> (t: String)
    ensures
        t@ == title_text(place, altitude@, view, wireframe, fps@, stats),
{
    let mut s: String = String::new();
    s.append("enki | ");
    s.append(place.label());
    s.append(" | ");
    s.append(altitude);
    s.append(" | M");
    push_decimal(&mut s, view as u64);
    s.append(if wireframe {
        "+WF"
    } else {
        ""
    });
    s.append(" | FPS: ");
    s.append(fps);
    match stats {
        Some(ps) => {
            push_stats(&mut s, ps);
        },
        None => {
            s.append("");
        },
    }
    assert(s@ =~= title_text(place, altitude@, view, wireframe, fps@, stats));
    s
}

/// A name and a number.
pub fn readout(name: &str, n: u64) -> (t: String)
    ensures
        t@ == name@ + ": "@ + decimal(n as nat),
{
    let mut s: String = name.to_owned();
    s.append(": ");
    push_decimal(&mut s, n);
    s
}

/// The range of levels in the quadtree.
pub fn levels(ps: &PlanetViewStats) -> (t: String)
    ensures
        t@ == "LOD levels: "@ + decimal(ps.min_lod_level as nat) + "-"@ + decimal(
            ps.max_lod_level as nat,
        ),
{
    let mut s: String = "LOD levels: ".to_owned();
    push_decimal(&mut s, ps.min_lod_level as u64);
    s.append("-");
    push_decimal(&mut s, ps.max_lod_level as u64);
    s
}

/// A status line tells the place, the height, the view and the rate in this order, and whether
/// terrain is drawn as lines; two that differ in one of the numbers are different.
pub proof fn status_lines_tell_it_all(
    place: Place,
    altitude: Seq<char>,
    view: u32,
    fps: Seq<char>,
    stats: PlanetViewStats,
)
    ensures
        title_text(place, altitude, view, false, fps, None) == "enki | "@ + place.name() + " | "@
            + altitude + " | M"@ + decimal(view as nat) + " | FPS: "@ + fps,
        title_text(place, altitude, view, true, fps, None) == "enki | "@ + place.name() + " | "@
            + altitude + " | M"@ + decimal(view as nat) + "+WF"@ + " | FPS: "@ + fps,
        title_text(place, altitude, view, false, fps, Some(stats)) == title_text(
            place,
            altitude,
            view,
            false,
            fps,
            None,
        ) + " | LOD chunks="@ + decimal(stats.resident_count as nat) + " q="@ + decimal(
            stats.build_queue_depth as nat,
        ) + " lv="@ + decimal(stats.min_lod_level as nat) + "-"@ + decimal(
            stats.max_lod_level as nat,
        ),
{
    reveal_strlit("");
    assert(""@ =~= Seq::<char>::empty());
    assert(title_text(place, altitude, view, false, fps, None) =~= "enki | "@ + place.name() + " | "@
        + altitude + " | M"@ + decimal(view as nat) + " | FPS: "@ + fps);
    assert(title_text(place, altitude, view, true, fps, None) =~= "enki | "@ + place.name() + " | "@
        + altitude + " | M"@ + decimal(view as nat) + "+WF"@ + " | FPS: "@ + fps);
    assert(title_text(place, altitude, view, false, fps, Some(stats)) =~= title_text(
        place,
        altitude,
        view,
        false,
        fps,
        None,
    ) + " | LOD chunks="@ + decimal(stats.resident_count as nat) + " q="@ + decimal(
        stats.build_queue_depth as nat,
    ) + " lv="@ + decimal(stats.min_lod_level as nat) + "-"@ + decimal(stats.max_lod_level as nat));
}

} // verus!
