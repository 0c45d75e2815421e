//! End-to-end tests of the atlas packing engine, with the real codecs.

use base64::Engine;
use sprite_atlas::{pack_atlas, AtlasError, SpriteInput};

/// Builds a sprite whose pixels all have the given RGBA color.
fn make_sprite(name: &str, w: u32, h: u32, color: [u8; 4], ox: i32, oy: i32) -> SpriteInput {
    let img = image::RgbaImage::from_pixel(w, h, image::Rgba(color));
    let mut buf = std::io::Cursor::new(Vec::new());
    img.write_to(&mut buf, image::ImageFormat::Png).unwrap();
    let b64 = base64::engine::general_purpose::STANDARD.encode(buf.get_ref());
    SpriteInput {
        name: name.to_string(),
        base64: b64,
        offset_x: ox,
        offset_y: oy,
    }
}

fn parse(json: &str) -> serde_json::Value {
    serde_json::from_str(json).unwrap()
}

fn frame_rect(v: &serde_json::Value, name: &str) -> (u64, u64, u64, u64) {
    let f = &v["frames"][name]["frame"];
    (
        f["x"].as_u64().unwrap(),
        f["y"].as_u64().unwrap(),
        f["w"].as_u64().unwrap(),
        f["h"].as_u64().unwrap(),
    )
}

#[test]
fn three_sprites_pack_at_full_scale() {
    let sprites = vec![
        make_sprite("big", 100, 100, [255, 0, 0, 255], 0, 0),
        make_sprite("mid", 50, 50, [0, 255, 0, 255], 0, 0),
        make_sprite("small", 30, 30, [0, 0, 255, 255], 0, 0),
    ];
    let out = pack_atlas(sprites, 2).unwrap();
    let v = parse(&out.json);
    assert_eq!(v["meta"]["scale"].as_f64().unwrap(), 1.0);
    let frames = v["frames"].as_object().unwrap();
    assert_eq!(frames.len(), 3);
    assert!(frames.contains_key("big"));
    assert!(frames.contains_key("mid"));
    assert!(frames.contains_key("small"));
    // The canvas is the tight bounding box of the padded rectangles, which
    // stays within the first 256-pixel bin.
    let size_w = v["meta"]["size"]["w"].as_u64().unwrap();
    let size_h = v["meta"]["size"]["h"].as_u64().unwrap();
    assert!(size_w <= 256 && size_h <= 256);
    let padding = 2u64;
    let mut max_r = 0;
    let mut max_b = 0;
    for name in ["big", "mid", "small"] {
        let (x, y, w, h) = frame_rect(&v, name);
        max_r = max_r.max(x + w + padding);
        max_b = max_b.max(y + h + padding);
        assert_eq!(v["frames"][name]["rotated"], serde_json::Value::Bool(false));
        assert_eq!(v["frames"][name]["trimmed"], serde_json::Value::Bool(false));
        assert_eq!(v["frames"][name]["pivot"]["x"].as_f64().unwrap(), 0.5);
        assert_eq!(v["frames"][name]["pivot"]["y"].as_f64().unwrap(), 0.5);
    }
    assert_eq!(size_w, max_r);
    assert_eq!(size_h, max_b);
}

#[test]
fn frames_within_bounds_and_disjoint() {
    let sprites = vec![
        make_sprite("a", 60, 40, [1, 2, 3, 255], 0, 0),
        make_sprite("b", 40, 60, [4, 5, 6, 255], 0, 0),
        make_sprite("c", 20, 20, [7, 8, 9, 255], 0, 0),
    ];
    let padding = 3i64;
    let out = pack_atlas(sprites, padding as u32).unwrap();
    let v = parse(&out.json);
    let size_w = v["meta"]["size"]["w"].as_u64().unwrap();
    let size_h = v["meta"]["size"]["h"].as_u64().unwrap();
    let names = ["a", "b", "c"];
    let rects: Vec<(i64, i64, i64, i64)> = names
        .iter()
        .map(|n| {
            let (x, y, w, h) = frame_rect(&v, n);
            (x as i64, y as i64, w as i64, h as i64)
        })
        .collect();
    for &(x, y, w, h) in &rects {
        assert!(x >= 0 && y >= 0);
        assert!(x + w <= size_w as i64);
        assert!(y + h <= size_h as i64);
    }
    for i in 0..rects.len() {
        for j in 0..rects.len() {
            if i != j {
                let (x1, y1, w1, h1) = rects[i];
                let (x2, y2, w2, h2) = rects[j];
                // Inflate each frame by the padding on all four sides.
                let (x1, y1, w1, h1) = (x1 - padding, y1 - padding, w1 + 2 * padding, h1 + 2 * padding);
                let (x2, y2, w2, h2) = (x2 - padding, y2 - padding, w2 + 2 * padding, h2 + 2 * padding);
                let disjoint =
                    x1 + w1 <= x2 || x2 + w2 <= x1 || y1 + h1 <= y2 || y2 + h2 <= y1;
                assert!(disjoint, "padded frames {} and {} overlap", i, j);
            }
        }
    }
}

#[test]
fn empty_input_fails() {
    let r = pack_atlas(Vec::new(), 0);
    assert!(matches!(r, Err(AtlasError::EmptyInput)));
}

#[test]
fn malformed_base64_fails() {
    let sp = SpriteInput {
        name: "bad".to_string(),
        base64: "!!!not-base64!!!".to_string(),
        offset_x: 0,
        offset_y: 0,
    };
    let r = pack_atlas(vec![sp], 0);
    assert!(matches!(r, Err(AtlasError::DecodeError)));
}

#[test]
fn malformed_png_fails() {
    let b64 = base64::engine::general_purpose::STANDARD.encode(b"this is not a png");
    let sp = SpriteInput {
        name: "bad".to_string(),
        base64: b64,
        offset_x: 0,
        offset_y: 0,
    };
    let r = pack_atlas(vec![sp], 0);
    assert!(matches!(r, Err(AtlasError::DecodeError)));
}

#[test]
fn huge_padding_is_infeasible() {
    // A padded side of at least 2 * 1024 + 1 exceeds the 2048 ceiling at
    // every scale factor: padding is never scaled down.
    let sprites = vec![make_sprite("tiny", 4, 4, [9, 9, 9, 255], 0, 0)];
    let r = pack_atlas(sprites, 1024);
    assert!(matches!(r, Err(AtlasError::PackingInfeasible)));
}

#[test]
fn data_url_prefix_accepted() {
    let plain = make_sprite("p", 8, 8, [10, 20, 30, 255], 0, 0);
    let prefixed = SpriteInput {
        name: "p".to_string(),
        base64: format!("data:image/png;base64,{}", plain.base64),
        offset_x: 0,
        offset_y: 0,
    };
    let out1 = pack_atlas(vec![plain], 1).unwrap();
    let out2 = pack_atlas(vec![prefixed], 1).unwrap();
    assert_eq!(out1.json, out2.json);
    assert_eq!(out1.image_base64, out2.image_base64);
}

#[test]
fn identical_input_gives_identical_output() {
    let mk = || {
        vec![
            make_sprite("x", 33, 17, [1, 1, 1, 255], 5, -7),
            make_sprite("y", 21, 40, [2, 2, 2, 255], 0, 0),
        ]
    };
    let out1 = pack_atlas(mk(), 2).unwrap();
    let out2 = pack_atlas(mk(), 2).unwrap();
    assert_eq!(out1.json, out2.json);
    assert_eq!(out1.image_base64, out2.image_base64);
}

#[test]
fn offsets_carried_through_unscaled() {
    let sprites = vec![make_sprite("o", 10, 10, [0, 0, 0, 255], 3, -4)];
    let out = pack_atlas(sprites, 0).unwrap();
    let v = parse(&out.json);
    assert_eq!(v["frames"]["o"]["offset"]["x"].as_i64().unwrap(), 3);
    assert_eq!(v["frames"]["o"]["offset"]["y"].as_i64().unwrap(), -4);
}

#[test]
fn single_pixel_exact_manifest() {
    let sprites = vec![make_sprite("a", 1, 1, [7, 7, 7, 255], 0, 0)];
    let out = pack_atlas(sprites, 0).unwrap();
    let expected = "{\"frames\":{\"a\":{\"frame\":{\"x\":0,\"y\":0,\"w\":1,\"h\":1},\"rotated\":false,\"trimmed\":false,\"spriteSourceSize\":{\"x\":0,\"y\":0,\"w\":1,\"h\":1},\"sourceSize\":{\"w\":1,\"h\":1},\"pivot\":{\"x\":0.5,\"y\":0.5},\"offset\":{\"x\":0,\"y\":0}}},\"meta\":{\"image\":\"atlas.png\",\"size\":{\"w\":1,\"h\":1},\"scale\":1.0}}";
    assert_eq!(out.json, expected);
}

#[test]
fn canvas_holds_sprite_pixels_and_transparent_margin() {
    let red = [200, 10, 10, 255];
    let blue = [10, 10, 200, 255];
    let sprites = vec![
        make_sprite("red", 2, 2, red, 0, 0),
        make_sprite("blue", 2, 2, blue, 0, 0),
    ];
    let out = pack_atlas(sprites, 1).unwrap();
    let v = parse(&out.json);
    let b64 = out
        .image_base64
        .strip_prefix("data:image/png;base64,")
        .unwrap();
    let bytes = base64::engine::general_purpose::STANDARD
        .decode(b64)
        .unwrap();
    let canvas = image::load_from_memory(&bytes).unwrap().to_rgba8();
    assert_eq!(u64::from(canvas.width()), v["meta"]["size"]["w"].as_u64().unwrap());
    assert_eq!(u64::from(canvas.height()), v["meta"]["size"]["h"].as_u64().unwrap());
    let mut covered = vec![vec![false; canvas.height() as usize]; canvas.width() as usize];
    for (name, color) in [("red", red), ("blue", blue)] {
        let (x, y, w, h) = frame_rect(&v, name);
        for dx in 0..w {
            for dy in 0..h {
                let px = canvas.get_pixel((x + dx) as u32, (y + dy) as u32);
                assert_eq!(px.0, color, "wrong pixel inside {}", name);
                covered[(x + dx) as usize][(y + dy) as usize] = true;
            }
        }
    }
    for x in 0..canvas.width() {
        for y in 0..canvas.height() {
            if !covered[x as usize][y as usize] {
                assert_eq!(canvas.get_pixel(x, y).0, [0, 0, 0, 0]);
            }
        }
    }
}

#[test]
fn duplicate_names_last_write_wins() {
    let sprites = vec![
        make_sprite("dup", 10, 10, [1, 1, 1, 255], 0, 0),
        make_sprite("dup", 20, 20, [2, 2, 2, 255], 0, 0),
    ];
    let out = pack_atlas(sprites, 0).unwrap();
    let v = parse(&out.json);
    let frames = v["frames"].as_object().unwrap();
    assert_eq!(frames.len(), 1);
    let (_, _, w, h) = frame_rect(&v, "dup");
    assert_eq!((w, h), (20, 20));
}

#[test]
fn wide_sprite_falls_back_to_sixty_percent() {
    // 3000 wide: padded width exceeds 2048 down to 70 percent; at 60
    // percent it becomes 1800 and fits the largest bin.
    let sprites = vec![make_sprite("wide", 3000, 100, [5, 5, 5, 255], 10, 0)];
    let out = pack_atlas(sprites, 0).unwrap();
    let v = parse(&out.json);
    assert_eq!(v["meta"]["scale"].as_f64().unwrap(), 0.6);
    let (_, _, w, h) = frame_rect(&v, "wide");
    assert_eq!((w, h), (1800, 60));
    // The offset is scaled by the same factor.
    assert_eq!(v["frames"]["wide"]["offset"]["x"].as_i64().unwrap(), 6);
}

#[test]
fn names_with_quotes_and_backslashes_are_escaped() {
    let name = "qu\"ote\\slash";
    let sprites = vec![make_sprite(name, 4, 4, [1, 2, 3, 255], 0, 0)];
    let out = pack_atlas(sprites, 0).unwrap();
    let v = parse(&out.json);
    let frames = v["frames"].as_object().unwrap();
    assert_eq!(frames.len(), 1);
    assert!(frames.contains_key(name));
}

#[test]
fn manifest_keys_are_sorted_lexicographically() {
    let sprites = vec![
        make_sprite("zeta", 10, 10, [1, 1, 1, 255], 0, 0),
        make_sprite("alpha", 10, 10, [2, 2, 2, 255], 0, 0),
        make_sprite("mid", 10, 10, [3, 3, 3, 255], 0, 0),
    ];
    let out = pack_atlas(sprites, 0).unwrap();
    let pa = out.json.find("\"alpha\"").unwrap();
    let pm = out.json.find("\"mid\"").unwrap();
    let pz = out.json.find("\"zeta\"").unwrap();
    assert!(pa < pm && pm < pz);
}
