use jam::clamp;
use jam::color::{rgb, rgba, Color};
use jam::render::{add_quad, ShaderPair};
use jam::texture_region::{tile_extents_x, tile_extents_y, TextureAtlas, TextureRegion};
use jam::ui::{ExampleEvent, ExampleState, ExampleWidget, HorizontalAlignment, Text, VerticalAlignment};

fn region() -> TextureRegion {
    TextureRegion { u_min: 10, u_max: 30, v_min: 5, v_max: 45, layer: 2, texture_size: 256 }
}

#[test]
fn flips_swap_extents() {
    let r = region();
    let h = r.h_flip();
    assert_eq!((h.u_min, h.u_max, h.v_min, h.v_max), (30, 10, 5, 45));
    let v = r.v_flip();
    assert_eq!((v.u_min, v.u_max, v.v_min, v.v_max), (10, 30, 45, 5));
    assert_eq!(r.h_flipped(false), r);
    assert_eq!(r.h_flipped(true), h);
    assert_eq!(r.v_flipped(true), v);
    assert_eq!(r.v_flipped(false), r);
}

#[test]
fn width_and_height_ignore_mirroring() {
    let r = region();
    assert_eq!(r.width(), 20);
    assert_eq!(r.height(), 40);
    assert_eq!(r.h_flip().width(), 20);
    assert_eq!(r.v_flip().height(), 40);
}

#[test]
fn atlas_tiles() {
    assert_eq!(tile_extents_x(16, 3, 2), (48, 80));
    assert_eq!(tile_extents_y(16, 0, 1), (0, 16));
    let atlas = TextureAtlas { texture_size: 512, tile_size: 16 };
    let t = atlas.at(2, 3);
    assert_eq!(t, TextureRegion { u_min: 32, u_max: 48, v_min: 48, v_max: 64, layer: 0, texture_size: 512 });
    let g = atlas.get(1, 1, 2, 3);
    assert_eq!(g, TextureRegion { u_min: 16, u_max: 48, v_min: 16, v_max: 64, layer: 0, texture_size: 512 });
    let layer = atlas.layer(4);
    assert_eq!(layer.at(0, 0), TextureRegion { u_min: 0, u_max: 16, v_min: 0, v_max: 16, layer: 4, texture_size: 512 });
    assert_eq!(layer.get(1, 0, 1, 2).v_max, 32);
}

#[test]
fn colours() {
    assert_eq!(rgb(1, 2, 3), Color { r: 1, g: 2, b: 3, a: 255 });
    let c = rgba(9, 8, 7, 6);
    assert_eq!(c.raw(), [9, 8, 7, 6]);
    assert_eq!(c.tup(), (9, 8, 7, 6));
}

#[test]
fn clamp_limits_to_range() {
    assert_eq!(clamp(5, 0, 10), 5);
    assert_eq!(clamp(-3, 0, 10), 0);
    assert_eq!(clamp(12, 0, 10), 10);
}

#[test]
fn quad_becomes_two_triangles() {
    let mut v = vec![9];
    add_quad(&mut v, [1, 2, 3, 4]);
    assert_eq!(v, vec![9, 1, 2, 3, 4, 1, 3]);
}

#[test]
fn shader_pair_matches_whole_components() {
    let pair = ShaderPair::for_paths("shaders/main.vert", "shaders/main.frag");
    assert!(pair.contains("shaders/main.vert"));
    assert!(pair.contains("/home/me/game/shaders/main.frag"));
    assert!(!pair.contains("shaders/other.vert"));
    assert!(!pair.contains("ders/main.vert"));
}

#[test]
fn text_defaults() {
    let t = Text::new("hi".to_string(), rgb(0, 0, 0));
    assert_eq!(t.size, 25);
    assert_eq!(t.horizontal_alignment, HorizontalAlignment::Left);
    assert_eq!(t.vertical_alignment, VerticalAlignment::Top);
    assert_eq!(t.characters, "hi");
}

#[test]
fn scoreboard_updates() {
    let s = ExampleState::sample();
    assert_eq!((s.score_a, s.score_b, s.period), (0, 1, 1));
    assert_eq!(s.time_remaining, "5 00");
    assert_eq!(s.play_status, "Faceoff in 0 00");
    let w = ExampleWidget {};
    let a = w.update(&s, &ExampleEvent::IncrementScoreA);
    assert_eq!((a.score_a, a.score_b), (1, 1));
    let b = w.update(&a, &ExampleEvent::IncrementScoreB);
    assert_eq!((b.score_a, b.score_b), (1, 2));
    assert_eq!(b.time_remaining, s.time_remaining);
}
