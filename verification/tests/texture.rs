use chora::camera::{camera_color_format, camera_depth_format, MSAASampleCount};
use chora::coordination::{Point2D, Rectangle};
use chora::texture::{
    assign_sprites, color_for_format, expand_rgb_to_rgba, export_buffer_size, format_for_color, pack_textures,
    ColorKind, PixelConversion, Placement, TexelFormat, MAX_TEXTURE_SIZE,
};

#[test]
fn rgb_pixels_gain_an_opaque_alpha() {
    let rgb: Vec<u8> = vec![1, 2, 3, 4, 5, 6];
    assert_eq!(expand_rgb_to_rgba(&rgb, 255), vec![1, 2, 3, 255, 4, 5, 6, 255]);
    let rgb16: Vec<u16> = vec![100, 200, 300];
    assert_eq!(expand_rgb_to_rgba(&rgb16, u16::MAX), vec![100, 200, 300, u16::MAX]);
    assert_eq!(expand_rgb_to_rgba::<u8>(&[], 255), Vec::<u8>::new());
}

#[test]
fn color_layouts_map_to_upload_formats() {
    assert_eq!(format_for_color(ColorKind::L8), (TexelFormat::R8Unorm, PixelConversion::Keep));
    assert_eq!(format_for_color(ColorKind::La8), (TexelFormat::Rg8Unorm, PixelConversion::Keep));
    assert_eq!(format_for_color(ColorKind::Rgb8), (TexelFormat::Rgba8Unorm, PixelConversion::Rgb8ToRgba8));
    assert_eq!(format_for_color(ColorKind::Rgb16), (TexelFormat::Rgba16Unorm, PixelConversion::Rgb16ToRgba16));
    assert_eq!(format_for_color(ColorKind::Rgb32F), (TexelFormat::Rgba32Float, PixelConversion::Rgb32FToRgba32F));
    assert_eq!(format_for_color(ColorKind::Rgba32F), (TexelFormat::Rgba32Float, PixelConversion::Keep));
}

#[test]
fn formats_map_back_to_saved_layouts() {
    assert_eq!(color_for_format(TexelFormat::Rgba8Unorm), Some(ColorKind::Rgba8));
    assert_eq!(color_for_format(TexelFormat::Rg8Unorm), Some(ColorKind::Rgb8));
    assert_eq!(color_for_format(TexelFormat::Rg16Unorm), Some(ColorKind::Rgb16));
    assert_eq!(color_for_format(TexelFormat::Depth24PlusStencil8), None);
    assert_eq!(color_for_format(TexelFormat::Rgba16Float), None);
}

#[test]
fn export_buffers_hold_every_texel() {
    assert_eq!(export_buffer_size(4, 2, TexelFormat::Rgba8Unorm), Some(32));
    assert_eq!(export_buffer_size(3, 3, TexelFormat::Rgba32Float), Some(144));
    assert_eq!(export_buffer_size(5, 1, TexelFormat::R8Unorm), Some(5));
    assert_eq!(export_buffer_size(2, 2, TexelFormat::Depth24PlusStencil8), None);
    assert_eq!(export_buffer_size(65536, 65536, TexelFormat::Rgba8Unorm), None);
    assert_eq!(export_buffer_size(0, 7, TexelFormat::Rgba16Unorm), Some(0));
}

#[test]
fn camera_formats() {
    assert_eq!(camera_color_format(false), TexelFormat::Rgba8Unorm);
    assert_eq!(camera_color_format(true), TexelFormat::Rgba16Float);
    assert_eq!(camera_depth_format(), TexelFormat::Depth24PlusStencil8);
}

#[test]
fn sample_counts() {
    assert_eq!(MSAASampleCount::default(), MSAASampleCount::X1);
    let n: u32 = MSAASampleCount::X4.into();
    assert_eq!(n, 4);
    assert_eq!(MSAASampleCount::X2.samples(), 2);
    assert_eq!(MSAASampleCount::X1.samples(), 1);
}

#[test]
fn rectangles_measure_their_corners() {
    let r = Rectangle::new(Point2D::new(2, 3), Point2D::new(10, 7));
    assert_eq!(r.min(), Point2D { x: 2, y: 3 });
    assert_eq!(r.max(), Point2D { x: 10, y: 7 });
    assert_eq!(r.width(), 8);
    assert_eq!(r.height(), 4);
    let d: Rectangle<i32> = Rectangle::default();
    assert_eq!(d.width(), 0);
}

#[test]
fn textures_of_one_atlas_pack_into_one() {
    let sizes = vec![(512u32, 512u32), (256, 256), (512, 512)];
    let packing = pack_textures(&sizes, 0).unwrap();
    assert_eq!(packing.atlases, 1);
    assert_eq!(packing.placed.len(), 3);
    let slots = assign_sprites(&sizes, &packing.placed, packing.atlases).unwrap();
    assert_eq!(slots.len(), 3);
    let mut textures: Vec<usize> = slots.iter().map(|s| s.texture).collect();
    textures.sort();
    assert_eq!(textures, vec![0, 1, 2]);
    for (slot, p) in slots.iter().zip(packing.placed.iter()) {
        assert_eq!(slot.atlas, 0);
        assert_eq!(sizes[slot.texture], (p.width as u32, p.height as u32));
        assert_eq!(slot.rect.width(), p.width);
        assert_eq!(slot.rect.height(), p.height);
        assert!(slot.rect.max().x <= MAX_TEXTURE_SIZE as i32);
        assert!(slot.rect.max().y <= MAX_TEXTURE_SIZE as i32);
    }
}

#[test]
fn textures_that_overflow_an_atlas_take_another() {
    let sizes = vec![(2048u32, 2048u32), (1024, 1024)];
    let packing = pack_textures(&sizes, 0).unwrap();
    assert_eq!(packing.atlases, 2);
    let slots = assign_sprites(&sizes, &packing.placed, packing.atlases).unwrap();
    let mut atlases: Vec<usize> = slots.iter().map(|s| s.atlas).collect();
    atlases.sort();
    assert_eq!(atlases, vec![0, 1]);
}

#[test]
fn a_texture_larger_than_an_atlas_does_not_pack() {
    let sizes = vec![(4096u32, 16u32)];
    assert!(pack_textures(&sizes, 0).is_none());
}

fn placed(w: i32, h: i32, x: i32, y: i32, bucket: i32) -> Placement {
    Placement { width: w, height: h, origin_x: Some(x), origin_y: Some(y), bucket: Some(bucket) }
}

#[test]
fn equal_sizes_are_served_in_input_order() {
    let sizes = vec![(8u32, 8u32), (4, 4), (8, 8)];
    let boxes = vec![placed(8, 8, 0, 0, 1), placed(4, 4, 8, 0, 2), placed(8, 8, 0, 8, 1)];
    let slots = assign_sprites(&sizes, &boxes, 2).unwrap();
    assert_eq!(slots[0].texture, 0);
    assert_eq!(slots[1].texture, 1);
    assert_eq!(slots[2].texture, 2);
    assert_eq!(slots[1].atlas, 1);
    assert_eq!(slots[2].rect, Rectangle::new(Point2D::new(0, 8), Point2D::new(8, 16)));
}

#[test]
fn sprite_assignment_refuses_what_cannot_be_served() {
    let sizes = vec![(8u32, 8u32)];
    // No texture of that size.
    assert!(assign_sprites(&sizes, &vec![placed(4, 4, 0, 0, 1)], 1).is_none());
    // Two boxes for one texture.
    assert!(assign_sprites(&sizes, &vec![placed(8, 8, 0, 0, 1), placed(8, 8, 8, 0, 1)], 1).is_none());
    // A bin beyond the atlases.
    assert!(assign_sprites(&sizes, &vec![placed(8, 8, 0, 0, 2)], 1).is_none());
    // An unplaced box.
    let unplaced = Placement { width: 8, height: 8, origin_x: None, origin_y: None, bucket: None };
    assert!(assign_sprites(&sizes, &vec![unplaced], 1).is_none());
    // A corner beyond i32.
    assert!(assign_sprites(&sizes, &vec![placed(8, 8, i32::MAX - 2, 0, 1)], 1).is_none());
    assert!(assign_sprites(&sizes, &vec![], 0).unwrap().is_empty());
}

#[test]
fn sprites_lie_inside_their_atlas_and_apart() {
    let sizes = vec![(700u32, 900u32), (1500, 300), (800, 800), (1200, 1200), (300, 2048), (64, 64), (64, 64)];
    let packing = pack_textures(&sizes, 0).unwrap();
    let slots = assign_sprites(&sizes, &packing.placed, packing.atlases).unwrap();
    assert_eq!(slots.len(), sizes.len());
    let size = MAX_TEXTURE_SIZE as i32;
    for s in &slots {
        assert!(s.atlas < packing.atlases);
        assert!(0 <= s.rect.min().x && s.rect.min().x <= s.rect.max().x && s.rect.max().x <= size);
        assert!(0 <= s.rect.min().y && s.rect.min().y <= s.rect.max().y && s.rect.max().y <= size);
    }
    for (j, a) in slots.iter().enumerate() {
        for (k, b) in slots.iter().enumerate() {
            if j != k && a.atlas == b.atlas {
                assert!(
                    a.rect.max().x <= b.rect.min().x
                        || b.rect.max().x <= a.rect.min().x
                        || a.rect.max().y <= b.rect.min().y
                        || b.rect.max().y <= a.rect.min().y
                );
            }
        }
    }
}

#[test]
fn textures_that_fit_an_atlas_always_pack() {
    let sizes = vec![(2048u32, 2048u32), (2048, 2048), (2048, 2048), (1, 2048)];
    let packing = pack_textures(&sizes, 0).unwrap();
    assert_eq!(packing.atlases, 4);
    assert_eq!(packing.placed.len(), 4);
    let slots = assign_sprites(&sizes, &packing.placed, packing.atlases).unwrap();
    let mut textures: Vec<usize> = slots.iter().map(|s| s.texture).collect();
    textures.sort();
    assert_eq!(textures, vec![0, 1, 2, 3]);
}
