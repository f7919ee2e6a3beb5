use ray_pipeline::codec::{encode_scene, parse_scene};
use ray_pipeline::pipeline::build_scene_config;
use ray_pipeline::scene::{Camera, Color, PersistedScene, Radiance, Shape, Surface};

fn sample_scene() -> PersistedScene {
    PersistedScene {
        camera: Camera { aspect_w: 16, aspect_h: 9 },
        background: Color { r: 1, g: 2, b: 3 },
        surfaces: vec![
            Surface {
                shape: Shape::Rect { u0: 100, v0: 200, u1: 900, v1: 800 },
                radiance: Radiance { r: 255, g: 0, b: 128 },
                texture: Some(b"wood.png".to_vec()),
            },
            Surface {
                shape: Shape::Plane,
                radiance: Radiance { r: 300, g: 1, b: 2 },
                texture: None,
            },
        ],
    }
}

#[test]
fn scene_store_round_trip() {
    let scene = sample_scene();
    let text = encode_scene(&scene);
    let back = parse_scene(&text).expect("the laid-down document must load");
    assert!(back.same_scene(&scene));
}

#[test]
fn generated_scene_round_trip() {
    let scene = build_scene_config();
    let text = encode_scene(&scene);
    let back = parse_scene(&text).expect("the generated document must load");
    assert!(back.same_scene(&scene));
}

#[test]
fn exact_document_for_empty_scene() {
    let scene = PersistedScene {
        camera: Camera { aspect_w: 1, aspect_h: 1 },
        background: Color { r: 0, g: 0, b: 0 },
        surfaces: vec![],
    };
    let text = encode_scene(&scene);
    assert_eq!(text, b"c 1 1\nk 0 0 0\nn 0\n".to_vec());
}

#[test]
fn exact_document_for_textured_plane() {
    let scene = PersistedScene {
        camera: Camera { aspect_w: 2, aspect_h: 1 },
        background: Color { r: 9, g: 8, b: 7 },
        surfaces: vec![Surface {
            shape: Shape::Plane,
            radiance: Radiance { r: 10, g: 20, b: 30 },
            texture: Some(b"sky".to_vec()),
        }],
    };
    let text = encode_scene(&scene);
    assert_eq!(text, b"c 2 1\nk 9 8 7\nn 1\np 10 20 30 tsky\n".to_vec());
}

#[test]
fn empty_document_rejected() {
    assert!(parse_scene(b"").is_err());
}

#[test]
fn wrong_tag_rejected() {
    assert!(parse_scene(b"x 1 1\nk 0 0 0\nn 0\n").is_err());
}

#[test]
fn zero_aspect_rejected() {
    assert!(parse_scene(b"c 0 1\nk 0 0 0\nn 0\n").is_err());
}

#[test]
fn background_out_of_range_rejected() {
    assert!(parse_scene(b"c 1 1\nk 256 0 0\nn 0\n").is_err());
}

#[test]
fn truncated_surface_list_rejected() {
    assert!(parse_scene(b"c 1 1\nk 0 0 0\nn 2\np 1 2 3 -\n").is_err());
}

#[test]
fn trailing_bytes_rejected() {
    assert!(parse_scene(b"c 1 1\nk 0 0 0\nn 0\nextra").is_err());
}

#[test]
fn empty_texture_name_rejected() {
    assert!(parse_scene(b"c 1 1\nk 0 0 0\nn 1\np 1 2 3 t\n").is_err());
}
