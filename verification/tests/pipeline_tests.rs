use ray_pipeline::assets::{Image, LoadedAsset};
use ray_pipeline::cli::{CliCommand, CliConfig};
use ray_pipeline::codec::{encode_scene, parse_scene};
use ray_pipeline::pipeline::{
    build_scene_config, run, run_generate, run_render, PipelineError, RenderArtifacts,
    RunArtifacts, RunInput, StepLogger,
};
use ray_pipeline::scene::{Camera, Color, PersistedScene, Radiance, Shape, Surface};

fn flat_plane_text() -> Vec<u8> {
    let scene = PersistedScene {
        camera: Camera { aspect_w: 1, aspect_h: 1 },
        background: Color { r: 0, g: 0, b: 0 },
        surfaces: vec![Surface {
            shape: Shape::Plane,
            radiance: Radiance { r: 10, g: 20, b: 30 },
            texture: None,
        }],
    };
    encode_scene(&scene)
}

#[test]
fn flat_plane_renders_end_to_end() {
    let art = run_render(&flat_plane_text(), 4, 1, 1, vec![]).expect("the render must succeed");
    assert_eq!(art.output.image.width, 4);
    assert_eq!(art.output.image.height, 4);
    assert_eq!(art.output.failed_rays, 0);
    for cell in &art.output.image.data {
        assert_eq!(*cell, Some(Color { r: 10, g: 20, b: 30 }));
    }
    let mut expected = b"P3\n4 4\n255\n".to_vec();
    for _ in 0..16 {
        expected.extend_from_slice(b"10 20 30\n");
    }
    assert_eq!(art.ppm, expected);
    assert_eq!(art.log.len(), 7);
    assert_eq!(art.log[0], b"[1/7] Loading image yaml...".to_vec());
    assert_eq!(art.log[4], b"[5/7] Rendering...".to_vec());
    assert_eq!(art.log[5], b"[6/7] Checking for errors: no errors...".to_vec());
    assert_eq!(art.log[6], b"[7/7] Printing image...".to_vec());
}

#[test]
fn failed_rays_are_reported_in_the_log() {
    let scene = PersistedScene {
        camera: Camera { aspect_w: 1, aspect_h: 1 },
        background: Color { r: 0, g: 0, b: 0 },
        surfaces: vec![Surface {
            shape: Shape::Plane,
            radiance: Radiance { r: 999, g: 0, b: 0 },
            texture: None,
        }],
    };
    let art = run_render(&encode_scene(&scene), 2, 3, 1, vec![]).expect("the render must succeed");
    assert_eq!(art.output.failed_rays, 12);
    assert_eq!(art.log[5], b"[6/7] Checking for errors: found 12 rays with errors...".to_vec());
}

#[test]
fn missing_asset_reference_stops_validation() {
    let scene = PersistedScene {
        camera: Camera { aspect_w: 1, aspect_h: 1 },
        background: Color { r: 0, g: 0, b: 0 },
        surfaces: vec![Surface {
            shape: Shape::Plane,
            radiance: Radiance { r: 1, g: 2, b: 3 },
            texture: Some(b"missing.png".to_vec()),
        }],
    };
    let r = run_render(&encode_scene(&scene), 4, 1, 1, vec![]);
    match r {
        Err(PipelineError::Validation(e)) => assert_eq!(e.missing, b"missing.png".to_vec()),
        _ => panic!("expected a validation error"),
    }
}

#[test]
fn malformed_document_stops_loading() {
    let r = run_render(&b"not a scene".to_vec(), 4, 1, 1, vec![]);
    assert!(matches!(r, Err(PipelineError::Load(_))));
}

#[test]
fn unusable_asset_stops_staging() {
    let bad = LoadedAsset {
        name: b"bad.png".to_vec(),
        image: Image { width: 2, height: 2, pixels: vec![Color { r: 0, g: 0, b: 0 }] },
    };
    let r = run_render(&flat_plane_text(), 4, 1, 1, vec![bad]);
    match r {
        Err(PipelineError::Asset(e)) => assert_eq!(e.name, b"bad.png".to_vec()),
        _ => panic!("expected an asset error"),
    }
}

#[test]
fn oversized_request_is_refused() {
    // A plane-filling scene with an extreme aspect ratio: the pixel count
    // would not fit the machine's words.
    let scene = PersistedScene {
        camera: Camera { aspect_w: 1, aspect_h: u32::MAX },
        background: Color { r: 0, g: 0, b: 0 },
        surfaces: vec![],
    };
    let r = run_render(&encode_scene(&scene), u32::MAX as u64, 1, 1, vec![]);
    assert!(matches!(r, Err(PipelineError::ResourceLimit)));
}

#[test]
fn oversized_sample_budget_is_refused() {
    let r = run_render(&flat_plane_text(), 2, u64::MAX, 1, vec![]);
    assert!(matches!(r, Err(PipelineError::ResourceLimit)));
}

#[test]
fn generate_writes_the_exact_document() {
    let (text, _) = run_generate();
    assert_eq!(
        text,
        b"c 4 3\nk 135 206 235\nn 2\nr 200 300 800 700 250 40 40 -\np 60 160 80 -\n".to_vec()
    );
}

#[test]
fn generate_writes_a_loadable_document() {
    let (text, log) = run_generate();
    let back = parse_scene(&text).expect("the generated document must load");
    assert!(back.same_scene(&build_scene_config()));
    assert_eq!(log.len(), 2);
    assert_eq!(log[0], b"[1/2] Generating scene...".to_vec());
    assert_eq!(log[1], b"[2/2] Writing image yaml...".to_vec());
}

#[test]
fn run_dispatches_render() {
    let config = CliConfig {
        command: CliCommand::RENDER {
            width: 4,
            output_path: String::from("image.ppm"),
            num_of_rays: 1,
            num_of_threads: 1,
        },
        config_path: String::from("scene.yaml"),
    };
    let input = RunInput::Render { scene_text: flat_plane_text(), assets: vec![] };
    match run(config, input) {
        Ok(RunArtifacts::Rendered(RenderArtifacts { output, .. })) => {
            assert_eq!(output.image.width, 4);
            assert_eq!(output.failed_rays, 0);
        },
        _ => panic!("expected a rendered artifact"),
    }
}

#[test]
fn run_dispatches_generate() {
    let config = CliConfig {
        command: CliCommand::GENERATE,
        config_path: String::from("scene.yaml"),
    };
    match run(config, RunInput::Generate) {
        Ok(RunArtifacts::Generated { scene_text, log }) => {
            assert!(parse_scene(&scene_text).is_ok());
            assert_eq!(log.len(), 2);
        },
        _ => panic!("expected a generated artifact"),
    }
}

#[test]
fn step_logger_renders_numbered_lines() {
    let mut steps = StepLogger::new(7);
    let first = steps.log(b"Loading image yaml");
    assert_eq!(first, b"[1/7] Loading image yaml...".to_vec());
    let second = steps.log(b"Loading assets");
    assert_eq!(second, b"[2/7] Loading assets...".to_vec());
    assert_eq!(steps.step, 3);
    assert_eq!(steps.num_of_steps, 7);
}
