use renzora_authoring::atmospherics::authoring::{
    clock_hold, light_marker, lights_to_mark, UnmarkedLight, missing_parts, next_id, terrain_builds, LightMarker, RootPart,
    RootParts,
};
use renzora_authoring::atmospherics::cameras::{
    installed_parts, stripped_parts, sync, targets, CameraInfo, PipelinePart, RootState, Route,
};
use renzora_authoring::atmospherics::exposure::exposure_writes;
use renzora_authoring::atmospherics::package::{BauerPackage, Publication, PublishStep};
use renzora_authoring::atmospherics::textures::reissue;

fn cameras() -> Vec<CameraInfo> {
    vec![
        CameraInfo { id: 1, primary: true, viewport: true },
        CameraInfo { id: 2, primary: false, viewport: true },
        CameraInfo { id: 3, primary: false, viewport: false },
    ]
}

fn routes(root: u64) -> Vec<Route> {
    vec![
        Route { target: 1, sources: vec![root] },
        Route { target: 2, sources: vec![root] },
        Route { target: 3, sources: vec![9, root] },
        Route { target: 4, sources: vec![root] },
    ]
}

#[test]
fn only_the_primary_and_runtime_cameras_are_targets() {
    assert_eq!(targets(&routes(7), 7, &cameras()), vec![1, 3]);
    assert_eq!(targets(&routes(7), 8, &cameras()), Vec::<u64>::new());
}

/// The pipeline follows the root: on the routed camera while it lives, off once it goes.
#[test]
fn the_pipeline_leaves_the_camera_with_the_root() {
    let root = RootState { id: 7, view_changed: false, reconstruction_changed: false, reset_raised: true };
    let plan = sync(Some(root), &routes(7), &cameras(), &[]);
    assert_eq!(plan.install, vec![1, 3]);
    assert_eq!(plan.copy_view, vec![1, 3]);
    assert_eq!(plan.copy_reconstruction, vec![1, 3]);
    assert!(plan.strip.is_empty());
    assert!(plan.lower_reset);

    let moved = RootState { id: 7, view_changed: true, reconstruction_changed: false, reset_raised: false };
    let plan = sync(Some(moved), &routes(7), &cameras(), &[1, 3, 2]);
    assert!(plan.install.is_empty());
    assert_eq!(plan.copy_view, vec![1, 3]);
    assert!(plan.copy_reconstruction.is_empty());
    assert_eq!(plan.strip, vec![2]);
    assert!(!plan.lower_reset);

    let plan = sync(None, &[], &cameras(), &[1, 3]);
    assert_eq!(plan.strip, vec![1, 3]);
    assert!(plan.install.is_empty() && plan.copy_view.is_empty() && plan.copy_reconstruction.is_empty());
}

#[test]
fn exposure_is_written_on_new_cameras_or_a_moved_grade() {
    let mut seen = Vec::new();
    assert_eq!(exposure_writes(Some(false), &[1, 3], &mut seen), vec![1, 3]);
    assert_eq!(seen, vec![1, 3]);
    assert_eq!(exposure_writes(Some(false), &[1, 3, 5], &mut seen), vec![5]);
    assert_eq!(exposure_writes(Some(true), &[1, 3], &mut seen), vec![1, 3]);
    assert_eq!(exposure_writes(Some(false), &[1, 3], &mut seen), Vec::<u64>::new());
    assert!(exposure_writes(None, &[1, 3], &mut seen).is_empty());
    assert!(seen.is_empty());
}

#[test]
fn textures_are_reissued_once_per_root() {
    let mut seen = None;
    assert!(reissue(&mut seen, None, &[true]).is_empty());
    assert_eq!(reissue(&mut seen, Some("/proj".to_string()), &[true, false, true]), vec![0, 2]);
    assert_eq!(seen.as_deref(), Some("/proj"));
    assert!(reissue(&mut seen, Some("/proj".to_string()), &[true]).is_empty());
    assert_eq!(reissue(&mut seen, Some("/other".to_string()), &[false, true]), vec![1]);
}

fn step(s: PublishStep) -> String {
    match s {
        PublishStep::Nothing => "nothing".to_string(),
        PublishStep::ResetField => "reset".to_string(),
        PublishStep::Load { path } => format!("load {path}"),
        PublishStep::Publish { hour_steps } => format!("publish {hour_steps}"),
    }
}

#[test]
fn the_package_is_published_once_per_package_and_hour() {
    let mut p = Publication::new();
    assert_eq!(step(p.observe(None)), "nothing");
    assert_eq!(step(p.observe(Some(("bauer/a", 100)))), "load bauer/a");
    assert_eq!(step(p.loaded(true)), "publish 100");
    assert_eq!(step(p.observe(Some(("bauer/a", 100)))), "nothing");
    assert_eq!(step(p.observe(Some(("bauer/a", 101)))), "publish 101");
    assert_eq!(step(p.observe(Some(("bauer/b", 101)))), "load bauer/b");
    assert_eq!(step(p.loaded(false)), "reset");
    assert_eq!(step(p.observe(Some(("bauer/b", 102)))), "reset");
    assert_eq!(step(p.observe(None)), "reset");
    assert_eq!(step(p.observe(None)), "nothing");
}

#[test]
fn the_default_package_is_the_candidate() {
    assert_eq!(BauerPackage::default().path, "bauer/cumulonimbus-candidate");
}

#[test]
fn an_old_root_takes_the_parts_it_lacks() {
    let all = RootParts { package: true, night_grade: true, atmosphere: true, view: true, reconstruction: true };
    assert!(missing_parts(all).is_empty());
    let old = RootParts { package: false, night_grade: false, atmosphere: true, view: false, reconstruction: true };
    assert_eq!(missing_parts(old), vec![RootPart::Package, RootPart::NightGrade, RootPart::View]);
}

#[test]
fn lights_are_marked_by_name_in_any_case() {
    assert_eq!(light_marker("Sun"), Some(LightMarker::Sun));
    assert_eq!(light_marker("MOON"), Some(LightMarker::Moon));
    assert_eq!(light_marker("sunlight"), None);
    assert_eq!(light_marker(""), None);
}

#[test]
fn a_new_root_gets_a_fresh_id() {
    assert_eq!(next_id(&[]), 1);
    assert_eq!(next_id(&[3, 9, 4]), 10);
}

#[test]
fn the_clock_is_held_while_editing() {
    assert_eq!(clock_hold(true, false), Some(true));
    assert_eq!(clock_hold(false, true), Some(false));
    assert_eq!(clock_hold(true, true), None);
}

#[test]
fn terrain_is_built_under_a_routed_root() {
    let builds = terrain_builds(&[7, 8], &routes(7), &cameras());
    assert_eq!(builds, vec![(7, 1)]);
}

#[test]
fn only_lights_under_a_root_are_marked() {
    let lights = vec![
        UnmarkedLight { id: 10, name: "Sun".to_string(), parent: 7 },
        UnmarkedLight { id: 11, name: "moon".to_string(), parent: 7 },
        UnmarkedLight { id: 12, name: "sun".to_string(), parent: 8 },
        UnmarkedLight { id: 13, name: "lamp".to_string(), parent: 7 },
    ];
    assert_eq!(lights_to_mark(&[7], &lights), vec![(10, LightMarker::Sun), (11, LightMarker::Moon)]);
}

#[test]
fn a_strip_takes_back_what_the_install_put_on() {
    let stripped = stripped_parts();
    for part in installed_parts() {
        assert!(stripped.contains(&part), "{part:?} is installed but never stripped");
    }
    for part in [PipelinePart::View, PipelinePart::Reconstruction, PipelinePart::Exposure] {
        assert!(stripped.contains(&part));
    }
    assert_eq!(
        installed_parts(),
        vec![PipelinePart::SkyProbe, PipelinePart::DepthPrepass, PipelinePart::MsaaOff]
    );
    assert_eq!(stripped.len(), 6);
}
