use enki::shell::begin::Begun;
use enki::shell::frame::{loading_passes, Built, Frame, Pass};
use enki::shell::hud::{levels, readout, title, Hud, PlanetViewStats};
use enki::shell::launch::RunMode;
use enki::shell::loading::Stage;
use enki::shell::place::Place;
use enki::shell::settings::{Settings, KNOBS};

const EVERYTHING: Built = Built {
    quadtree: true,
    bodies: true,
    atmosphere: true,
    markers: true,
    character: true,
    trees: true,
    tree: true,
    ocean: true,
    waves: true,
    wind: true,
    scene: true,
    stress: true,
    panel: true,
};

fn frame(mode: RunMode, place: Place) -> Frame {
    Frame {
        mode,
        place,
        settings: Settings::start([0; KNOBS], false, true, true),
        nanite: false,
        choose: true,
        walker_seen: true,
        low: true,
        built: EVERYTHING,
    }
}

#[test]
fn orbit_draws_the_quadtree() {
    let f = frame(RunMode::Planet, Place::Globe);
    assert_eq!(
        f.opening_passes(),
        vec![
            Pass::QuadtreeUpdate,
            Pass::BeginScene,
            Pass::Viewport,
            Pass::QuadtreeDraw,
            Pass::Bodies,
            Pass::Atmosphere,
            Pass::WaterSplit,
        ]
    );
}

#[test]
fn ground_draws_walker_and_trees_over_clusters() {
    let mut f = frame(RunMode::Planet, Place::Surface);
    f.nanite = true;
    f.settings.markers_equator = true;
    assert_eq!(
        f.opening_passes(),
        vec![
            Pass::ClusterChoice,
            Pass::ClusterUpdate,
            Pass::ClusterCull,
            Pass::CharacterPose,
            Pass::TreesPrepare,
            Pass::BeginScene,
            Pass::Viewport,
            Pass::ClusterDraw,
            Pass::Bodies,
            Pass::Atmosphere,
            Pass::Markers,
            Pass::CharacterDraw,
            Pass::TreesDraw,
            Pass::WaterSplit,
        ]
    );
}

#[test]
fn first_person_hides_the_walker() {
    let mut f = frame(RunMode::Planet, Place::Surface);
    f.walker_seen = false;
    f.settings.flora_enabled = false;
    let passes = f.opening_passes();
    assert!(!passes.contains(&Pass::CharacterPose) && !passes.contains(&Pass::CharacterDraw));
    assert!(!passes.contains(&Pass::TreesPrepare));
}

#[test]
fn sea_is_split_or_a_shell() {
    let mut f = frame(RunMode::Planet, Place::Globe);
    assert_eq!(
        f.water_passes(true),
        vec![Pass::Waves { detail: true, intensity: false }, Pass::Wind { split: true }]
    );
    assert_eq!(f.water_passes(false), vec![Pass::OceanShell, Pass::Wind { split: false }]);
    f.settings.view_mode = 12;
    f.low = false;
    assert_eq!(f.water_passes(true)[0], Pass::Waves { detail: false, intensity: true });
    f.settings.ocean_enabled = false;
    assert_eq!(f.water_passes(true), vec![Pass::Wind { split: false }]);
    f.settings.wind_enabled = false;
    assert!(f.water_passes(true).is_empty());
}

#[test]
fn other_modes_draw_their_own() {
    assert_eq!(
        frame(RunMode::Markers, Place::Globe).opening_passes(),
        vec![Pass::BeginScene, Pass::MarkerScene]
    );
    assert_eq!(
        frame(RunMode::Stress, Place::Globe).opening_passes(),
        vec![Pass::StressUpload, Pass::BeginScene, Pass::StressDraw]
    );
    let mut soak = frame(RunMode::SoakTerrain, Place::Globe);
    assert_eq!(
        soak.opening_passes(),
        vec![Pass::QuadtreeUpdate, Pass::BeginScene, Pass::Viewport, Pass::QuadtreeDraw]
    );
    soak.built.quadtree = false;
    assert_eq!(soak.opening_passes(), vec![Pass::BeginScene, Pass::Viewport]);
    assert!(soak.water_passes(true).is_empty());
}

#[test]
fn frame_ends_in_the_panel() {
    let mut f = frame(RunMode::Planet, Place::Globe);
    assert_eq!(f.closing_passes(), vec![Pass::UiPass, Pass::Panel, Pass::EndFrame]);
    f.settings.taa = true;
    f.built.panel = false;
    assert_eq!(f.closing_passes(), vec![Pass::Resolve, Pass::UiPass, Pass::EndFrame]);
}

#[test]
fn loading_screen_ends_what_was_begun() {
    assert_eq!(
        loading_passes(Begun::Picture, true),
        vec![Pass::BeginScene, Pass::Viewport, Pass::UiPass, Pass::Panel, Pass::EndFrame]
    );
    assert_eq!(
        loading_passes(Begun::Picture, false),
        vec![Pass::BeginScene, Pass::Viewport, Pass::UiPass, Pass::EndFrame]
    );
    assert_eq!(loading_passes(Begun::NoPicture, true), vec![Pass::EndFrame]);
    assert!(loading_passes(Begun::Lost, true).is_empty());
    assert!(loading_passes(Begun::Failed, true).is_empty());
}

#[test]
fn frame_rate_is_renewed_every_sixteen_frames() {
    let mut hud = Hud::new();
    let mut renewed = Vec::new();
    for n in 1..=40 {
        if let Some(over) = hud.update() {
            assert_eq!(over, 16);
            renewed.push(n);
        }
    }
    assert_eq!(renewed, vec![16, 32]);
    assert_eq!(Hud::default().update(), None);
}

#[test]
fn title_tells_it_all() {
    let stats = PlanetViewStats {
        resident_count: 1234,
        build_queue_depth: 0,
        pending_upload_count: 7,
        min_lod_level: 2,
        max_lod_level: 11,
    };
    assert_eq!(
        title(Place::Globe, "1234.5 km", 1, false, "60", None),
        "enki | Globe | 1234.5 km | M1 | FPS: 60"
    );
    assert_eq!(
        title(Place::Surface, "12 m", 10, true, "59", Some(stats)),
        "enki | Surface | 12 m | M10+WF | FPS: 59 | LOD chunks=1234 q=0 lv=2-11"
    );
    assert_eq!(readout("Build queue", 17), "Build queue: 17");
    assert_eq!(levels(&stats), "LOD levels: 2-11");
}

#[test]
fn load_goes_through_its_stages() {
    let mut bar = Vec::new();
    let mut stage = Some(Stage::Starting);
    while let Some(s) = stage {
        bar.push(s.progress().percent);
        stage = s.next(true);
    }
    assert_eq!(bar, vec![0, 5, 40, 95]);
    assert_eq!(Stage::Heightfield.next(false), Some(Stage::Upload));
    assert_eq!(Stage::Starting.progress().message, "Initializing…");
    assert_eq!(Stage::Bake.progress().message, "Baking Nanite planet (6 deep face DAGs)…");
}
