use ray_pipeline::assets::{AssetBundle, Image, LoadedAsset};
use ray_pipeline::ppm::parse_ppm;
use ray_pipeline::config::{compile, RenderConfig};
use ray_pipeline::engine::{render, render_chunked};
use ray_pipeline::progress::ProgressReporter;
use ray_pipeline::scene::{Camera, Color, PersistedScene, Radiance, Shape, Surface};

fn flat_plane_scene(aspect_w: u32, aspect_h: u32, radiance: (u32, u32, u32)) -> PersistedScene {
    PersistedScene {
        camera: Camera { aspect_w, aspect_h },
        background: Color { r: 0, g: 0, b: 0 },
        surfaces: vec![Surface {
            shape: Shape::Plane,
            radiance: Radiance { r: radiance.0, g: radiance.1, b: radiance.2 },
            texture: None,
        }],
    }
}

fn config_of(scene: &PersistedScene, width: u64, spp: u64) -> RenderConfig {
    let bundle = AssetBundle::new(vec![]).expect("an empty bundle is usable");
    compile(scene, bundle, width, spp)
}

#[test]
fn image_dimensions_follow_request_and_aspect() {
    let scene = flat_plane_scene(2, 1, (10, 20, 30));
    let cfg = config_of(&scene, 6, 1);
    let mut progress = ProgressReporter::new(cfg.width * cfg.height);
    let out = render(&cfg, 1, &mut progress);
    assert_eq!(out.image.width, 6);
    assert_eq!(out.image.height, 3);
    assert_eq!(out.image.data.len(), 18);
}

#[test]
fn sample_counts_agree_across_thread_counts() {
    let scene = flat_plane_scene(1, 1, (10, 20, 30));
    let cfg = config_of(&scene, 8, 5);
    let total = cfg.width * cfg.height;
    for threads in [1usize, 4, 64] {
        let mut progress = ProgressReporter::new(total);
        let (_, _, consumed) = render_chunked(&cfg, threads, &mut progress);
        assert_eq!(consumed, total * 5);
    }
}

#[test]
fn thread_counts_yield_identical_fully_written_images() {
    let scene = PersistedScene {
        camera: Camera { aspect_w: 1, aspect_h: 1 },
        background: Color { r: 5, g: 6, b: 7 },
        surfaces: vec![
            Surface {
                shape: Shape::Rect { u0: 0, v0: 0, u1: 500, v1: 500 },
                radiance: Radiance { r: 200, g: 10, b: 10 },
                texture: None,
            },
            Surface {
                shape: Shape::Rect { u0: 500, v0: 500, u1: 1000, v1: 1000 },
                radiance: Radiance { r: 999, g: 0, b: 0 },
                texture: None,
            },
        ],
    };
    let cfg = config_of(&scene, 10, 2);
    let total = cfg.width * cfg.height;
    let mut p1 = ProgressReporter::new(total);
    let out1 = render(&cfg, 1, &mut p1);
    let mut p2 = ProgressReporter::new(total);
    let out2 = render(&cfg, 7, &mut p2);
    assert_eq!(out1.image.data.len(), out2.image.data.len());
    for (a, b) in out1.image.data.iter().zip(out2.image.data.iter()) {
        assert!(a.is_some(), "a sentinel cell survived");
        assert_eq!(a, b);
    }
    assert_eq!(out1.failed_rays, out2.failed_rays);
    assert_eq!(p1.completed, total);
    assert_eq!(p2.completed, total);
}

#[test]
fn flat_plane_fills_every_pixel_with_its_color() {
    let scene = flat_plane_scene(1, 1, (10, 20, 30));
    let cfg = config_of(&scene, 4, 1);
    let mut progress = ProgressReporter::new(cfg.width * cfg.height);
    let out = render(&cfg, 1, &mut progress);
    assert_eq!(out.failed_rays, 0);
    assert_eq!(out.image.data.len(), 16);
    for cell in &out.image.data {
        assert_eq!(*cell, Some(Color { r: 10, g: 20, b: 30 }));
    }
}

#[test]
fn invalid_radiance_degrades_to_black_and_is_counted() {
    let scene = flat_plane_scene(1, 1, (300, 0, 0));
    let cfg = config_of(&scene, 4, 3);
    let total = cfg.width * cfg.height;
    let mut progress = ProgressReporter::new(total);
    let out = render(&cfg, 2, &mut progress);
    assert_eq!(out.failed_rays, total * 3);
    assert!(out.failed_rays <= total * 3);
    for cell in &out.image.data {
        assert_eq!(*cell, Some(Color { r: 0, g: 0, b: 0 }));
    }
}

#[test]
fn textured_plane_tiles_the_asset() {
    let scene = PersistedScene {
        camera: Camera { aspect_w: 1, aspect_h: 1 },
        background: Color { r: 0, g: 0, b: 0 },
        surfaces: vec![Surface {
            shape: Shape::Plane,
            radiance: Radiance { r: 0, g: 0, b: 0 },
            texture: Some(b"checker".to_vec()),
        }],
    };
    let asset = LoadedAsset {
        name: b"checker".to_vec(),
        image: Image {
            width: 2,
            height: 1,
            pixels: vec![Color { r: 255, g: 0, b: 0 }, Color { r: 0, g: 0, b: 255 }],
        },
    };
    let bundle = AssetBundle::new(vec![asset]).expect("the asset is usable");
    let cfg = compile(&scene, bundle, 4, 1);
    let mut progress = ProgressReporter::new(cfg.width * cfg.height);
    let out = render(&cfg, 1, &mut progress);
    assert_eq!(out.failed_rays, 0);
    for y in 0..4u64 {
        for x in 0..4u64 {
            let cell = out.image.data[(y * 4 + x) as usize];
            let expected = if x % 2 == 0 {
                Color { r: 255, g: 0, b: 0 }
            } else {
                Color { r: 0, g: 0, b: 255 }
            };
            assert_eq!(cell, Some(expected));
        }
    }
}

#[test]
fn background_shows_where_nothing_is_hit() {
    let scene = PersistedScene {
        camera: Camera { aspect_w: 1, aspect_h: 1 },
        background: Color { r: 11, g: 22, b: 33 },
        surfaces: vec![],
    };
    let cfg = config_of(&scene, 2, 1);
    let mut progress = ProgressReporter::new(cfg.width * cfg.height);
    let out = render(&cfg, 1, &mut progress);
    for cell in &out.image.data {
        assert_eq!(*cell, Some(Color { r: 11, g: 22, b: 33 }));
    }
}

#[test]
fn zero_samples_give_black_and_no_failures() {
    let scene = flat_plane_scene(1, 1, (10, 20, 30));
    let cfg = config_of(&scene, 2, 0);
    let mut progress = ProgressReporter::new(cfg.width * cfg.height);
    let out = render(&cfg, 1, &mut progress);
    assert_eq!(out.failed_rays, 0);
    for cell in &out.image.data {
        assert_eq!(*cell, Some(Color { r: 0, g: 0, b: 0 }));
    }
}

#[test]
fn ppm_decoder_reads_whitespace_separated_documents() {
    let img = parse_ppm(b"P3\n2 1\n255\n255 0 0\n0 0 255\n").expect("the document must decode");
    assert_eq!(img.width, 2);
    assert_eq!(img.height, 1);
    assert_eq!(img.pixels, vec![Color { r: 255, g: 0, b: 0 }, Color { r: 0, g: 0, b: 255 }]);
    let tabbed = parse_ppm(b"P3\t1\t1\t255\t7 8 9 ").expect("any whitespace separates tokens");
    assert_eq!(tabbed.pixels, vec![Color { r: 7, g: 8, b: 9 }]);
}

#[test]
fn ppm_decoder_round_trips_the_encoder() {
    let scene = flat_plane_scene(1, 1, (10, 20, 30));
    let cfg = config_of(&scene, 2, 1);
    let mut progress = ProgressReporter::new(cfg.width * cfg.height);
    let out = render(&cfg, 1, &mut progress);
    let bytes = ray_pipeline::ppm::encode_ppm(&out.image);
    let img = parse_ppm(&bytes).expect("the encoder's output must decode");
    assert_eq!(img.width as u64, out.image.width);
    assert_eq!(img.height as u64, out.image.height);
    for (cell, px) in out.image.data.iter().zip(img.pixels.iter()) {
        assert_eq!(*cell, Some(*px));
    }
}

#[test]
fn ppm_decoder_rejects_malformed_documents() {
    assert!(parse_ppm(b"").is_err());
    assert!(parse_ppm(b"P6\n1 1\n255\n0 0 0\n").is_err());
    assert!(parse_ppm(b"P3\n1 1\n255\n0 0\n").is_err());
    assert!(parse_ppm(b"P3\n1 1\n255\n0 0 256\n").is_err());
    assert!(parse_ppm(b"P3\n0 1\n255\n").is_err());
    assert!(parse_ppm(b"P3\n1 1\n254\n0 0 0\n").is_err());
    assert!(parse_ppm(b"P3\n1 1\n255\n0 0 0\nextra").is_err());
}

#[test]
fn progress_reporter_counts_and_batches() {
    let mut p = ProgressReporter::new(5000);
    assert_eq!(p.batch, 5);
    assert_eq!(p.completed, 0);
    p.record();
    assert_eq!(p.completed, 1);
    let small = ProgressReporter::new(10);
    assert_eq!(small.batch, 1);
    assert!(small.should_refresh());
}
