//! What keys and the panel do to the shell, told by what can be seen of it.
use vstd::prelude::*;

use crate::controls::camera::Camera;
use crate::controls::first_person::MoveInput;
use crate::shell::panel::UiOutput;
use crate::shell::place::Place;
use crate::shell::settings::{Settings, Toggle};
use crate::shell::state::{view_after, Key, KeyChange, NavChange, ShellState};

verus! {

/// The view key goes on to the next view up to the tenth and then begins anew. It passes over none
/// but those that show clusters, and over those exactly where there are none.
pub proof fn views_come_in_turn(view: u32, clusters: bool, between: u32)
    ensures
        view_after(view, clusters) <= 10,
        view >= 10 ==> view_after(view, clusters) == 0,
        view < 10 ==> view < view_after(view, clusters),
        view < between < view_after(view, clusters) ==> 3 <= between <= 5 && !clusters,
        !clusters ==> !(3 <= view_after(view, clusters) <= 5),
{
}

/// After as many presses as there are views, the key is back where it began.
pub proof fn views_come_round()
    ensures
        ({
            let next = |v: u32| view_after(v, true);
            next(next(next(next(next(next(next(next(next(next(next(0))))))))))) == 0
        }),
        ({
            let next = |v: u32| view_after(v, false);
            next(next(next(next(next(next(next(next(0)))))))) == 0
        }),
{
}

/// Where one is after a key goes down. The step key leads from orbit to the choice of a point and
/// from everywhere else back to orbit; the way out leads off the ground; the flight key leads from
/// orbit into space and back. No other key leads anywhere.
pub open spec fn leads_to(from: Place, key: Key) -> Place {
    match (from, key) {
        (Place::Globe, Key::Tab) => Place::Placement,
        (Place::Placement, Key::Tab) => Place::Globe,
        (Place::Surface, Key::Tab) => Place::Globe,
        (Place::Space, Key::Tab) => Place::Globe,
        (Place::Surface, Key::Escape) => Place::Globe,
        (Place::Globe, Key::F) => Place::Space,
        (Place::Space, Key::F) => Place::Globe,
        _ => from,
    }
}

/// Keys lead where they are told to, when they go down; when they come up they lead nowhere.
pub proof fn keys_lead_somewhere(s: ShellState, key: Key, orbit: Camera)
    requires
        s.wf(),
    ensures
        s.keyed(key, true, orbit).place() == leads_to(s.place(), key),
        s.keyed(key, false, orbit).place() == s.place(),
        s.keyed(key, true, orbit).wf(),
{
}

/// What is told of a way is the way that was gone: nothing is told of a key that leads nowhere.
pub proof fn ways_are_told(s: ShellState, key: Key, orbit: Camera)
    requires
        s.wf(),
        key is Tab || key is Escape || key is F,
    ensures
        s.keying(key, true) == KeyChange::Went(
            if leads_to(s.place(), key) == s.place() {
                NavChange::Nothing
            } else {
                match (s.place(), leads_to(s.place(), key)) {
                    (Place::Globe, Place::Placement) => NavChange::Placing,
                    (Place::Placement, _) => NavChange::PlacingCancelled,
                    (Place::Surface, _) => NavChange::LeftSurface(s.nav.saved),
                    (Place::Globe, _) => NavChange::EnteredSpace,
                    _ => NavChange::LeftSpace,
                }
            },
        ),
        s.keying(key, false) is Nothing,
{
}

/// The keys for ways and views move nothing else: neither the settings nor the held keys change on
/// a way, and a view changes the view alone.
pub proof fn ways_change_nothing_else(s: ShellState, key: Key, orbit: Camera, t: Toggle)
    requires
        s.wf(),
    ensures
        key is Tab || key is Escape || key is F || key is V ==> s.keyed(key, true, orbit).settings
            == s.settings && s.keyed(key, true, orbit).input == s.input,
        key is M ==> s.keyed(key, true, orbit).settings.on(t) == s.settings.on(t),
        key is M ==> s.keyed(key, true, orbit).settings.view_mode == view_after(
            s.settings.view_mode,
            s.settings.nanite_enabled && s.clusters,
        ),
        key is V ==> s.keyed(key, true, orbit) == s,
        key is V ==> (s.keying(key, true) == KeyChange::TurnView <==> s.place() is Surface),
        key is Other ==> s.keyed(key, true, orbit) == s && s.keying(key, true) is Nothing,
{
}

/// In orbit the first movement key switches between filled terrain and lines; elsewhere it is a
/// movement key.
pub proof fn lines_are_switched_in_orbit(s: ShellState, orbit: Camera)
    requires
        s.wf(),
    ensures
        ({
            let t = s.keyed(Key::W, true, orbit);
            let above = s.place() is Globe || s.place() is Placement;
            &&& above ==> t.settings.wireframe == !s.settings.wireframe && t.input == s.input
            &&& above ==> t.place() == s.place()
            &&& above ==> s.keying(Key::W, true) == KeyChange::Lines(!s.settings.wireframe)
            &&& !above ==> t.settings == s.settings && t.input.keys.forward
        }),
{
}

/// The direction or the haste that a movement key stands for.
pub open spec fn held_for(k: MoveInput, key: Key) -> bool {
    match key {
        Key::W => k.forward,
        Key::S => k.backward,
        Key::A => k.left,
        Key::D => k.right,
        _ => k.sprint,
    }
}

/// A movement key is held from when it goes down until it comes up, whatever other such keys do in
/// between.
pub proof fn movement_keys_are_held(s: ShellState, key: Key, other: Key, pressed: bool, orbit: Camera)
    requires
        s.wf(),
        key is W || key is A || key is S || key is D || key is Shift,
        other is W || other is A || other is S || other is D || other is Shift,
        s.place() is Surface || s.place() is Space,
    ensures
        held_for(s.keyed(key, pressed, orbit).input.keys, key) == pressed,
        key != other ==> held_for(s.keyed(key, pressed, orbit).input.keys, other) == held_for(
            s.input.keys,
            other,
        ),
        s.keyed(key, pressed, orbit).settings == s.settings,
        s.keyed(key, pressed, orbit).place() == s.place(),
        s.keying(key, pressed) == KeyChange::Keys(s.keyed(key, pressed, orbit).input.keys),
{
}

/// The panel's settings are taken over as they are, but for a view that cannot be shown.
pub proof fn panel_settings_are_taken_over(s: ShellState, out: UiOutput, orbit: Camera, t: Toggle)
    requires
        s.wf(),
    ensures
        s.paneled(out, orbit).settings.on(t) == out.settings.on(t),
        s.paneled(out, orbit).settings.knobs == out.settings.knobs,
        !(3 <= out.settings.view_mode <= 5) ==> s.paneled(out, orbit).settings.view_mode
            == out.settings.view_mode,
        out.settings.nanite_enabled && s.clusters ==> s.paneled(out, orbit).settings.view_mode
            == out.settings.view_mode,
        3 <= out.settings.view_mode <= 5 && !(out.settings.nanite_enabled && s.clusters)
            ==> s.paneled(out, orbit).settings.view_mode == 0,
        s.paneled(out, orbit).notice <==> s.notice && !out.dismiss_load_stats,
        s.paneled(out, orbit).input == s.input,
        s.paneled(out, orbit).frame == s.frame,
{
}

/// The panel's buttons lead where the keys lead, first the step and then the way off the ground.
pub proof fn panel_leads_as_keys_do(s: ShellState, out: UiOutput, orbit: Camera)
    requires
        s.wf(),
        out.settings.wf(),
    ensures
        ({
            let stepped = if out.cycle_nav {
                leads_to(s.place(), Key::Tab)
            } else {
                s.place()
            };
            s.paneled(out, orbit).place() == (if out.exit_surface {
                leads_to(stepped, Key::Escape)
            } else {
                stepped
            })
        }),
{
}

/// Four frames after the clusters were chosen they may be chosen again.
pub proof fn choices_come_again(s: ShellState)
    requires
        s.chosen_at + 4 <= s.frame,
    ensures
        s.may_choose(),
{
}

/// The viewer starts with the scene lit, filled and without anti-aliasing, and with everything on
/// show but the reference marks.
pub proof fn settings_start_plain(s: Settings, paused: bool, clouds: bool, rivers: bool, t: Toggle)
    requires
        s == Settings::initial(s.knobs, paused, clouds, rivers),
    ensures
        s.view_mode == 0,
        s.on(t) == (match t {
            Toggle::Paused => paused,
            Toggle::Clouds => clouds,
            Toggle::Rivers => rivers,
            Toggle::Wireframe | Toggle::Taa | Toggle::Equator | Toggle::Poles => false,
            _ => true,
        }),
{
}

} // verus!
