//! Texel formats and pixel layouts of loaded images, and how textures are
//! packed into atlases.
use crate::coordination::{Point2D, Rectangle};
use max_rects::bucket::Bucket;
use max_rects::max_rects::MaxRects;
use max_rects::packing_box::PackingBox;
use vstd::prelude::*;

verus! {

/// The side of a square atlas texture, in texels.
pub const MAX_TEXTURE_SIZE: u32 = 2048;

/// The texel formats that textures of the renderer use.
#[derive(PartialEq, Eq, Structural, Clone, Copy, Debug)]
pub enum TexelFormat {
    R8Unorm,
    Rg8Unorm,
    R16Unorm,
    Rg16Unorm,
    Rgba8Unorm,
    Rgba16Unorm,
    Rgba16Float,
    Rgba32Float,
    Depth24PlusStencil8,
}

/// The pixel layouts of decoded images.
#[derive(PartialEq, Eq, Structural, Clone, Copy, Debug)]
pub enum ColorKind {
    L8,
    La8,
    Rgb8,
    Rgba8,
    L16,
    La16,
    Rgb16,
    Rgba16,
    Rgb32F,
    Rgba32F,
}

/// How an image's pixels are changed before upload.
#[derive(PartialEq, Eq, Structural, Clone, Copy, Debug)]
pub enum PixelConversion {
    /// Uploaded as they are.
    Keep,
    /// 8-bit RGB gains an opaque alpha channel.
    Rgb8ToRgba8,
    /// 16-bit RGB gains an opaque alpha channel.
    Rgb16ToRgba16,
    /// Float RGB gains an opaque alpha channel.
    Rgb32FToRgba32F,
}

/// The texel format an image of layout `color` is uploaded as, and how its
/// pixels are changed first: layouts without alpha gain one, as the GPU has
/// no three-channel formats.
pub open spec fn upload_format(color: ColorKind) -> (TexelFormat, PixelConversion) {
    match color {
        ColorKind::L8 => (TexelFormat::R8Unorm, PixelConversion::Keep),
        ColorKind::La8 => (TexelFormat::Rg8Unorm, PixelConversion::Keep),
        ColorKind::L16 => (TexelFormat::R16Unorm, PixelConversion::Keep),
        ColorKind::Rgba8 => (TexelFormat::Rgba8Unorm, PixelConversion::Keep),
        ColorKind::La16 => (TexelFormat::Rg16Unorm, PixelConversion::Keep),
        ColorKind::Rgba16 => (TexelFormat::Rgba16Unorm, PixelConversion::Keep),
        ColorKind::Rgba32F => (TexelFormat::Rgba32Float, PixelConversion::Keep),
        ColorKind::Rgb8 => (TexelFormat::Rgba8Unorm, PixelConversion::Rgb8ToRgba8),
        ColorKind::Rgb16 => (TexelFormat::Rgba16Unorm, PixelConversion::Rgb16ToRgba16),
        ColorKind::Rgb32F => (TexelFormat::Rgba32Float, PixelConversion::Rgb32FToRgba32F),
    }
}

/// See `upload_format`.
pub fn format_for_color(color: ColorKind) -> (r: (TexelFormat, PixelConversion))
    ensures
        r == upload_format(color),
{
    match color {
        ColorKind::L8 => (TexelFormat::R8Unorm, PixelConversion::Keep),
        ColorKind::La8 => (TexelFormat::Rg8Unorm, PixelConversion::Keep),
        ColorKind::L16 => (TexelFormat::R16Unorm, PixelConversion::Keep),
        ColorKind::Rgba8 => (TexelFormat::Rgba8Unorm, PixelConversion::Keep),
        ColorKind::La16 => (TexelFormat::Rg16Unorm, PixelConversion::Keep),
        ColorKind::Rgba16 => (TexelFormat::Rgba16Unorm, PixelConversion::Keep),
        ColorKind::Rgba32F => (TexelFormat::Rgba32Float, PixelConversion::Keep),
        ColorKind::Rgb8 => (TexelFormat::Rgba8Unorm, PixelConversion::Rgb8ToRgba8),
        ColorKind::Rgb16 => (TexelFormat::Rgba16Unorm, PixelConversion::Rgb16ToRgba16),
        ColorKind::Rgb32F => (TexelFormat::Rgba32Float, PixelConversion::Rgb32FToRgba32F),
    }
}

/// The pixel layout a texture of `format` is saved with; two-channel formats
/// are saved as RGB. Formats without a saved layout give `None`.
pub open spec fn export_color(format: TexelFormat) -> Option<ColorKind> {
    match format {
        TexelFormat::R8Unorm => Some(ColorKind::L8),
        TexelFormat::Rg8Unorm => Some(ColorKind::Rgb8),
        TexelFormat::R16Unorm => Some(ColorKind::L16),
        TexelFormat::Rgba8Unorm => Some(ColorKind::Rgba8),
        TexelFormat::Rg16Unorm => Some(ColorKind::Rgb16),
        TexelFormat::Rgba16Unorm => Some(ColorKind::Rgba16),
        TexelFormat::Rgba32Float => Some(ColorKind::Rgba32F),
        _ => None,
    }
}

/// See `export_color`.
pub fn color_for_format(format: TexelFormat) -> (r: Option<ColorKind>)
    ensures
        r == export_color(format),
{
    match format {
        TexelFormat::R8Unorm => Some(ColorKind::L8),
        TexelFormat::Rg8Unorm => Some(ColorKind::Rgb8),
        TexelFormat::R16Unorm => Some(ColorKind::L16),
        TexelFormat::Rgba8Unorm => Some(ColorKind::Rgba8),
        TexelFormat::Rg16Unorm => Some(ColorKind::Rgb16),
        TexelFormat::Rgba16Unorm => Some(ColorKind::Rgba16),
        TexelFormat::Rgba32Float => Some(ColorKind::Rgba32F),
        _ => None,
    }
}

/// Whether `rgba` is `rgb` with `opaque` appended to every pixel.
pub open spec fn is_rgba_of<T>(rgb: Seq<T>, rgba: Seq<T>, opaque: T) -> bool {
    &&& rgba.len() == rgb.len() / 3 * 4
    &&& forall|p: int, c: int|
        0 <= p < rgb.len() / 3 && 0 <= c < 3 ==> #[trigger] rgba[4 * p + c] == rgb[3 * p + c]
    &&& forall|p: int| 0 <= p < rgb.len() / 3 ==> #[trigger] rgba[4 * p + 3] == opaque
}

/// Appends the channel value `opaque` to every three-channel pixel of `rgb`.
pub fn expand_rgb_to_rgba<T: Copy>(rgb: &[T], opaque: T) -> (rgba: Vec<T>)
    requires
        rgb@.len() % 3 == 0,
        rgb@.len() / 3 * 4 <= usize::MAX,
    ensures
        is_rgba_of(rgb@, rgba@, opaque),
{
    let total = rgb.len();
    let pixels = total / 3;
    assert(rgb@.len() == 3 * pixels);
    let mut rgba: Vec<T> = Vec::with_capacity(pixels * 4);
    let mut p: usize = 0;
    while p < pixels
        invariant
            pixels == rgb@.len() / 3,
            rgb@.len() == 3 * pixels,
            total == rgb@.len(),
            p <= pixels,
            rgba@.len() == 4 * p,
            forall|q: int, c: int| 0 <= q < p && 0 <= c < 3 ==> #[trigger] rgba@[4 * q + c] == rgb@[3 * q + c],
            forall|q: int| 0 <= q < p ==> #[trigger] rgba@[4 * q + 3] == opaque,
        decreases pixels - p,
    {
        assert(3 * p + 3 <= 3 * pixels) by (nonlinear_arith)
            requires
                p < pixels,
        ;
        let s = 3 * p;
        rgba.push(rgb[s]);
        rgba.push(rgb[s + 1]);
        rgba.push(rgb[s + 2]);
        rgba.push(opaque);
        proof {
            assert forall|q: int, c: int| 0 <= q < p + 1 && 0 <= c < 3 implies #[trigger] rgba@[4 * q + c] == rgb@[3 * q + c] by {
                if q == p {
                    assert(4 * q + c == 4 * p + c);
                }
            }
        }
        p = p + 1;
    }
    rgba
}

/// The bytes one texel of `format` takes in a copy of the whole texture.
pub open spec fn texel_bytes(format: TexelFormat) -> Option<u32> {
    match format {
        TexelFormat::R8Unorm => Some(1),
        TexelFormat::Rg8Unorm => Some(2),
        TexelFormat::R16Unorm => Some(2),
        TexelFormat::Rg16Unorm => Some(4),
        TexelFormat::Rgba8Unorm => Some(4),
        TexelFormat::Rgba16Unorm => Some(8),
        TexelFormat::Rgba16Float => Some(8),
        TexelFormat::Rgba32Float => Some(16),
        TexelFormat::Depth24PlusStencil8 => None,
    }
}

/// The bytes a texel of `format` takes in a copy, as the table of wgpu's
/// `TextureFormat::block_copy_size` gives them with no aspect (none for the
/// combined depth-stencil format).
fn texel_copy_size(format: TexelFormat) -> (r: Option<u32>)
    ensures
        r == texel_bytes(format),
{
    match format {
        TexelFormat::R8Unorm => Some(1),
        TexelFormat::Rg8Unorm => Some(2),
        TexelFormat::R16Unorm => Some(2),
        TexelFormat::Rg16Unorm => Some(4),
        TexelFormat::Rgba8Unorm => Some(4),
        TexelFormat::Rgba16Unorm => Some(8),
        TexelFormat::Rgba16Float => Some(8),
        TexelFormat::Rgba32Float => Some(16),
        TexelFormat::Depth24PlusStencil8 => None,
    }
}

/// The size in bytes of a buffer that holds a whole `width` by `height`
/// texture of `format`; `None` when the format has no copy size or the size
/// does not fit in a `u32`.
pub fn export_buffer_size(width: u32, height: u32, format: TexelFormat) -> (r: Option<u32>)
    ensures
        r is Some <==> texel_bytes(format) is Some && width * height * texel_bytes(format).unwrap()
            <= u32::MAX,
        r matches Some(n) ==> n == width * height * texel_bytes(format).unwrap(),
{
    match texel_copy_size(format) {
        None => None,
        Some(bpp) => {
            assert((width as u64) * (height as u64) <= u64::MAX) by (nonlinear_arith)
                requires
                    width <= u32::MAX,
                    height <= u32::MAX,
            ;
            let wide: u64 = (width as u64) * (height as u64);
            if wide > u32::MAX as u64 {
                proof {
                    assert(width * height * bpp >= width * height) by (nonlinear_arith)
                        requires
                            bpp >= 1,
                    ;
                }
                return None;
            }
            let area = wide as u32;
            let total: u64 = (area as u64) * (bpp as u64);
            if total > u32::MAX as u64 {
                None
            } else {
                Some(total as u32)
            }
        },
    }
}

/// A bin to pack boxes into: a rectangle of the plane and the id of the
/// atlas it belongs to.
#[derive(PartialEq, Eq, Structural, Clone, Copy, Debug)]
pub struct BinSpec {
    pub width: i32,
    pub height: i32,
    pub origin_x: i32,
    pub origin_y: i32,
    pub id: i32,
}

/// A box as the packer hands it back: its size and, once placed, its corner
/// and the id of the bin it went into.
#[derive(PartialEq, Eq, Structural, Clone, Copy, Debug)]
pub struct Placement {
    pub width: i32,
    pub height: i32,
    pub origin_x: Option<i32>,
    pub origin_y: Option<i32>,
    pub bucket: Option<i32>,
}

/// What `max_rects::max_rects::MaxRects::place` answers for boxes of the
/// given sizes and the given bins: the boxes it placed, in the order it
/// placed them, and how many boxes it left unplaced.
pub uninterp spec fn max_rects_packing(boxes: Seq<(i32, i32)>, bins: Seq<BinSpec>) -> (Seq<Placement>, nat);

/// Whether every value of the packing problem is small enough that the
/// packer's sums, differences and areas stay within `i32`.
pub open spec fn packable(boxes: Seq<(i32, i32)>, bins: Seq<BinSpec>) -> bool {
    &&& forall|i: int| 0 <= i < boxes.len() ==> 0 <= #[trigger] boxes[i].0 <= 32768 && 0 <= boxes[i].1 <= 32768
    &&& forall|i: int|
        0 <= i < bins.len() ==> 0 <= #[trigger] bins[i].width <= 32768 && 0 <= bins[i].height <= 32768
            && 0 <= bins[i].origin_x <= 32768 && 0 <= bins[i].origin_y <= 32768
}

/// Whether placed box `p` lies inside bin `b`.
pub open spec fn inside_bin(p: Placement, b: BinSpec) -> bool {
    &&& p.bucket == Some(b.id)
    &&& b.origin_x <= p.origin_x.unwrap()
    &&& p.origin_x.unwrap() + p.width <= b.origin_x + b.width
    &&& b.origin_y <= p.origin_y.unwrap()
    &&& p.origin_y.unwrap() + p.height <= b.origin_y + b.height
}

/// Whether every box of `placed` has its corner and lies inside one of `bins`.
pub open spec fn placed_in_bins(placed: Seq<Placement>, bins: Seq<BinSpec>) -> bool {
    forall|i: int|
        0 <= i < placed.len() ==> {
            &&& (#[trigger] placed[i]).origin_x is Some
            &&& placed[i].origin_y is Some
            &&& placed[i].bucket is Some
            &&& exists|j: int| 0 <= j < bins.len() && inside_bin(placed[i], #[trigger] bins[j])
        }
}

/// Whether every box of `placed` has the size of one of `boxes`.
pub open spec fn placed_from(placed: Seq<Placement>, boxes: Seq<(i32, i32)>) -> bool {
    forall|i: int|
        0 <= i < placed.len() ==> exists|j: int|
            0 <= j < boxes.len() && #[trigger] boxes[j] == (#[trigger] placed[i].width, placed[i].height)
}

/// The sizes of the placed boxes, in the packer's terms.
pub open spec fn placed_dims(placed: Seq<Placement>) -> Seq<(i32, i32)> {
    placed.map_values(|p: Placement| (p.width, p.height))
}

/// Whether every size occurs among the placed boxes no more often than
/// among `boxes`: each input box is placed at most once.
pub open spec fn placed_within(placed: Seq<Placement>, boxes: Seq<(i32, i32)>) -> bool {
    forall|x: (i32, i32)| #[trigger] count_of(placed_dims(placed), x) <= count_of(boxes, x)
}

/// Whether every box fits every bin.
pub open spec fn every_box_fits(boxes: Seq<(i32, i32)>, bins: Seq<BinSpec>) -> bool {
    forall|i: int, j: int|
        0 <= i < boxes.len() && 0 <= j < bins.len() ==> #[trigger] boxes[i].0 <= #[trigger] bins[j].width
            && boxes[i].1 <= bins[j].height
}

/// Whether no two bins share an id.
pub open spec fn distinct_ids(bins: Seq<BinSpec>) -> bool {
    forall|i: int, j: int| 0 <= i < bins.len() && 0 <= j < bins.len() && i != j ==> #[trigger] bins[i].id != #[trigger] bins[j].id
}

/// Whether two placed boxes leave each other's interior alone.
pub open spec fn apart(p: Placement, q: Placement) -> bool {
    ||| p.bucket != q.bucket
    ||| p.origin_x.unwrap() + p.width <= q.origin_x.unwrap()
    ||| q.origin_x.unwrap() + q.width <= p.origin_x.unwrap()
    ||| p.origin_y.unwrap() + p.height <= q.origin_y.unwrap()
    ||| q.origin_y.unwrap() + q.height <= p.origin_y.unwrap()
}

/// Whether no two boxes of `placed` overlap.
pub open spec fn placed_apart(placed: Seq<Placement>) -> bool {
    forall|i: int, k: int| 0 <= i < placed.len() && 0 <= k < placed.len() && i != k ==> apart(
        #[trigger] placed[i],
        #[trigger] placed[k],
    )
}

/// `MaxRects::new(boxes, bins).place()` of the `max_rects` crate, with each
/// size made a `PackingBox` and each bin a `Bucket`: the placed boxes, in the
/// order the packer placed them, and the number it could not place. Besides
/// naming that result, the contract states what the crate's source shows of
/// every run. Each step takes one box out of the input and places it, so the
/// placed boxes are input boxes, each used at most once, and the rest are
/// left over. A placed box has its corner and the id of a bin, and lies
/// inside that bin: it is put into a free rectangle it fits, and every free
/// rectangle is cut from a bin and stays inside it. Two boxes placed in bins
/// of one id do not overlap: a free rectangle that overlaps a placed box is
/// replaced by its parts beside the box, as the crate's overlap test sees
/// it, before the next box is placed. And the packer stops only when no box
/// left fits a free rectangle, while a bin whose id no placed box took keeps
/// its whole rectangle free (the overlap and containment tests only compare
/// rectangles of one id); so when the bins have distinct ids, are at least
/// as many as the boxes, and every box fits every bin, no box is left over.
#[verifier::external_body]
fn place_boxes(boxes: &Vec<(i32, i32)>, bins: &Vec<BinSpec>) -> (r: (Vec<Placement>, usize))
    requires
        packable(boxes@, bins@),
    ensures
        (r.0@, r.1 as nat) == max_rects_packing(boxes@, bins@),
        r.0@.len() + r.1 == boxes@.len(),
        placed_from(r.0@, boxes@),
        placed_within(r.0@, boxes@),
        placed_in_bins(r.0@, bins@),
        placed_apart(r.0@),
        every_box_fits(boxes@, bins@) && distinct_ids(bins@) && boxes@.len() <= bins@.len() ==> r.1 == 0,
{
    let bx: Vec<PackingBox> = boxes.iter().map(|b| PackingBox::new(b.0, b.1)).collect();
    let bn: Vec<Bucket> = bins.iter().map(
        |b| Bucket::new(b.width, b.height, b.origin_x, b.origin_y, b.id),
    ).collect();
    let (placed, remaining, _) = MaxRects::new(bx, bn).place();
    let out: Vec<Placement> = placed.iter().map(
        |p| Placement { width: p.width, height: p.height, origin_x: p.originx, origin_y: p.originy, bucket: p.bucketid },
    ).collect();
    (out, remaining.len())
}

/// The first `count` atlases as bins: full-size squares at the origin with
/// ids counted from one.
pub open spec fn atlas_bins(count: nat) -> Seq<BinSpec> {
    Seq::new(
        count,
        |i: int|
            BinSpec {
                width: MAX_TEXTURE_SIZE as i32,
                height: MAX_TEXTURE_SIZE as i32,
                origin_x: 0,
                origin_y: 0,
                id: (i + 1) as i32,
            },
    )
}

/// Texture sizes as boxes.
pub open spec fn box_sizes(sizes: Seq<(u32, u32)>) -> Seq<(i32, i32)> {
    sizes.map_values(|s: (u32, u32)| (s.0 as i32, s.1 as i32))
}

/// Whether the packer places every texture into `count` atlases.
pub open spec fn fits_in(sizes: Seq<(u32, u32)>, count: nat) -> bool {
    max_rects_packing(box_sizes(sizes), atlas_bins(count)).1 == 0
}

/// The most atlases the packing tries: one more than the estimate, and then
/// one more per texture.
pub open spec fn packing_limit(sizes: Seq<(u32, u32)>, estimate: nat) -> nat {
    estimate + sizes.len() + 1
}

/// The outcome of packing textures into atlases.
pub struct AtlasPacking {
    /// How many atlases were used.
    pub atlases: usize,
    /// Where the packer put each texture, in the order it placed them.
    pub placed: Vec<Placement>,
}

/// Packs textures of the given sizes into as few square atlases as the packer
/// manages, trying one atlas more than `estimate`, then one more at a time,
/// up to `packing_limit`; `None` when no count up to that limit fits, which
/// cannot happen when every texture fits an atlas (see `fit_an_atlas`).
pub fn pack_textures(sizes: &Vec<(u32, u32)>, estimate: usize) -> (r: Option<AtlasPacking>)
    requires
        forall|i: int| 0 <= i < sizes@.len() ==> #[trigger] sizes@[i].0 <= 32768 && sizes@[i].1 <= 32768,
        estimate + sizes@.len() + 1 <= i32::MAX,
    ensures
        r is Some <==> exists|k: nat| estimate < k <= packing_limit(sizes@, estimate as nat) && #[trigger] fits_in(sizes@, k),
        r matches Some(p) ==> {
            &&& estimate < p.atlases <= packing_limit(sizes@, estimate as nat)
            &&& fits_in(sizes@, p.atlases as nat)
            &&& forall|k: nat| estimate < k < p.atlases ==> !#[trigger] fits_in(sizes@, k)
            &&& p.placed@ == max_rects_packing(box_sizes(sizes@), atlas_bins(p.atlases as nat)).0
            &&& p.placed@.len() == sizes@.len()
            &&& placed_from(p.placed@, box_sizes(sizes@))
            &&& placed_within(p.placed@, box_sizes(sizes@))
            &&& placed_in_bins(p.placed@, atlas_bins(p.atlases as nat))
            &&& placed_apart(p.placed@)
            &&& forall|j: int| 0 <= j < p.placed@.len() ==> #[trigger] slot_possible(sizes@, p.placed@, p.atlases as nat, j)
        },
        fit_an_atlas(sizes@) ==> r is Some,
{
    let mut boxes: Vec<(i32, i32)> = Vec::new();
    let mut i: usize = 0;
    while i < sizes.len()
        invariant
            i <= sizes@.len(),
            boxes@ == box_sizes(sizes@).take(i as int),
            forall|i: int| 0 <= i < sizes@.len() ==> #[trigger] sizes@[i].0 <= 32768 && sizes@[i].1 <= 32768,
        decreases sizes@.len() - i,
    {
        let s = sizes[i];
        boxes.push((s.0 as i32, s.1 as i32));
        assert(boxes@ =~= box_sizes(sizes@).take(i + 1));
        i = i + 1;
    }
    assert(boxes@ =~= box_sizes(sizes@));
    let mut bins: Vec<BinSpec> = Vec::new();
    let mut b: usize = 0;
    while b < estimate
        invariant
            b <= estimate,
            estimate + sizes@.len() + 1 <= i32::MAX,
            bins@ =~= atlas_bins(b as nat),
        decreases estimate - b,
    {
        bins.push(atlas_bin(b));
        b = b + 1;
        assert(bins@ =~= atlas_bins(b as nat));
    }
    let limit = estimate + sizes.len() + 1;
    let mut count: usize = estimate;
    while count < limit
        invariant
            estimate <= count <= limit,
            limit == packing_limit(sizes@, estimate as nat),
            limit <= i32::MAX,
            bins@ =~= atlas_bins(count as nat),
            boxes@ == box_sizes(sizes@),
            forall|i: int| 0 <= i < sizes@.len() ==> #[trigger] sizes@[i].0 <= 32768 && sizes@[i].1 <= 32768,
            forall|k: nat| estimate < k <= count ==> !#[trigger] fits_in(sizes@, k),
            fit_an_atlas(sizes@) ==> count < limit,
        decreases limit - count,
    {
        bins.push(atlas_bin(count));
        count = count + 1;
        assert(bins@ =~= atlas_bins(count as nat));
        assert(packable(boxes@, bins@));
        let (placed, remaining) = place_boxes(&boxes, &bins);
        if remaining == 0 {
            assert(fits_in(sizes@, count as nat));
            proof {
                lemma_packing_slots_possible(sizes@, placed@, count as nat);
            }
            return Some(AtlasPacking { atlases: count, placed });
        }
        proof {
            lemma_atlas_bins_distinct(count as nat);
            if fit_an_atlas(sizes@) {
                assert(every_box_fits(boxes@, bins@));
                assert(boxes@.len() > bins@.len());
            }
        }
    }
    None
}

/// Atlas `index` as a bin: a full-size square at the origin with id `index + 1`.
fn atlas_bin(index: usize) -> (b: BinSpec)
    requires
        index < i32::MAX,
    ensures
        b == atlas_bins(index as nat + 1)[index as int],
{
    BinSpec {
        width: MAX_TEXTURE_SIZE as i32,
        height: MAX_TEXTURE_SIZE as i32,
        origin_x: 0,
        origin_y: 0,
        id: (index + 1) as i32,
    }
}

/// How often `x` occurs in `s`.
pub open spec fn count_of<A>(s: Seq<A>, x: A) -> nat
    decreases s.len(),
{
    if s.len() == 0 {
        0
    } else {
        count_of(s.drop_last(), x) + if s.last() == x {
            1nat
        } else {
            0nat
        }
    }
}

/// The size of a texture that a placed box stands for.
pub open spec fn placed_size(p: Placement) -> (u32, u32) {
    (p.width as u32, p.height as u32)
}

/// The sizes of placed boxes.
pub open spec fn placed_sizes(ps: Seq<Placement>) -> Seq<(u32, u32)> {
    ps.map_values(|p: Placement| placed_size(p))
}

/// Whether the `j`-th placed box can be given a texture: it was placed, into
/// one of the first `atlas_count` atlases, its far corner fits in `i32`, and
/// there is a texture of its size left over by the earlier boxes of that size.
pub open spec fn slot_possible(sizes: Seq<(u32, u32)>, placed: Seq<Placement>, atlas_count: nat, j: int) -> bool {
    let p = placed[j];
    &&& p.origin_x is Some
    &&& p.origin_y is Some
    &&& p.bucket is Some
    &&& 1 <= p.bucket.unwrap() <= atlas_count
    &&& i32::MIN <= p.origin_x.unwrap() + p.width <= i32::MAX
    &&& i32::MIN <= p.origin_y.unwrap() + p.height <= i32::MAX
    &&& count_of(placed_sizes(placed).take(j), placed_size(p)) < count_of(sizes, placed_size(p))
}

/// Where a texture goes: which texture, in which atlas, covering which texels.
#[derive(PartialEq, Eq, Structural, Clone, Copy, Debug)]
pub struct SpriteSlot {
    pub texture: usize,
    pub atlas: usize,
    pub rect: Rectangle<i32>,
}

/// Whether `slot` is what the `j`-th placed box gives: the atlas of its bin
/// (bins count from one, atlases from zero), the rectangle from its corner
/// spanning its size, and, among the textures of its size in input order,
/// the one after those that the earlier boxes of that size took.
pub open spec fn slot_of(sizes: Seq<(u32, u32)>, placed: Seq<Placement>, j: int, slot: SpriteSlot) -> bool {
    let p = placed[j];
    let x = p.origin_x.unwrap();
    let y = p.origin_y.unwrap();
    &&& slot.atlas == p.bucket.unwrap() - 1
    &&& slot.rect.spec_min() == Point2D { x, y }
    &&& slot.rect.spec_max() == Point2D { x: (x + p.width) as i32, y: (y + p.height) as i32 }
    &&& slot.texture < sizes.len()
    &&& sizes[slot.texture as int] == placed_size(p)
    &&& count_of(sizes.take(slot.texture as int), placed_size(p)) == count_of(
        placed_sizes(placed).take(j),
        placed_size(p),
    )
}

/// The prefix of `s` one longer counts `x` once more when its new last
/// element is `x`.
proof fn lemma_count_step<A>(s: Seq<A>, i: int, x: A)
    requires
        0 <= i < s.len(),
    ensures
        count_of(s.take(i + 1), x) == count_of(s.take(i), x) + if s[i] == x {
            1nat
        } else {
            0nat
        },
{
    assert(s.take(i + 1).drop_last() =~= s.take(i));
}

/// A prefix of `s` counts `x` no more often than `s` does.
proof fn lemma_count_prefix<A>(s: Seq<A>, i: int, x: A)
    requires
        0 <= i <= s.len(),
    ensures
        count_of(s.take(i), x) <= count_of(s, x),
    decreases s.len() - i,
{
    if i == s.len() {
        assert(s.take(i) =~= s);
    } else {
        lemma_count_step(s, i, x);
        lemma_count_prefix(s, i + 1, x);
    }
}

/// Gives each placed box the texture it stands for: textures of equal size
/// are taken in input order, first placed first served. `None` when a box
/// cannot be given one (see `slot_possible`).
pub fn assign_sprites(sizes: &Vec<(u32, u32)>, placed: &Vec<Placement>, atlas_count: usize) -> (r:
    Option<Vec<SpriteSlot>>)
    ensures
        r is Some <==> forall|j: int| 0 <= j < placed@.len() ==> #[trigger] slot_possible(sizes@, placed@, atlas_count as nat, j),
        r matches Some(v) ==> v@.len() == placed@.len() && forall|j: int|
            0 <= j < placed@.len() ==> #[trigger] slot_of(sizes@, placed@, j, v@[j]),
{
    let mut slots: Vec<SpriteSlot> = Vec::new();
    let mut j: usize = 0;
    while j < placed.len()
        invariant
            j <= placed@.len(),
            slots@.len() == j,
            forall|q: int| 0 <= q < j ==> #[trigger] slot_possible(sizes@, placed@, atlas_count as nat, q),
            forall|q: int| 0 <= q < j ==> #[trigger] slot_of(sizes@, placed@, q, slots@[q]),
        decreases placed@.len() - j,
    {
        let p = placed[j];
        let (x, y, bucket) = match (p.origin_x, p.origin_y, p.bucket) {
            (Some(x), Some(y), Some(b)) => (x, y, b),
            _ => {
                assert(!slot_possible(sizes@, placed@, atlas_count as nat, j as int));
                return None;
            },
        };
        if bucket < 1 {
            assert(!slot_possible(sizes@, placed@, atlas_count as nat, j as int));
            return None;
        }
        if bucket as usize > atlas_count {
            assert(!slot_possible(sizes@, placed@, atlas_count as nat, j as int));
            return None;
        }
        let far_x: i64 = x as i64 + p.width as i64;
        let far_y: i64 = y as i64 + p.height as i64;
        if far_x < i32::MIN as i64 || far_x > i32::MAX as i64 || far_y < i32::MIN as i64 || far_y
            > i32::MAX as i64 {
            assert(!slot_possible(sizes@, placed@, atlas_count as nat, j as int));
            return None;
        }
        let key: (u32, u32) = (p.width as u32, p.height as u32);
        assert(key == placed_size(placed@[j as int]));
        let ghost ps = placed_sizes(placed@);
        let mut taken: usize = 0;
        let mut q: usize = 0;
        while q < j
            invariant
                q <= j < placed@.len(),
                ps == placed_sizes(placed@),
                taken == count_of(ps.take(q as int), key),
                taken <= q,
            decreases j - q,
        {
            proof {
                lemma_count_step(ps, q as int, key);
            }
            let r = placed[q];
            if r.width as u32 == key.0 && r.height as u32 == key.1 {
                assert(ps[q as int] == key);
                taken = taken + 1;
            } else {
                assert(ps[q as int] != key);
            }
            q = q + 1;
        }
        let mut seen: usize = 0;
        let mut i: usize = 0;
        let mut found: Option<usize> = None;
        while i < sizes.len()
            invariant_except_break
                found is None,
            invariant
                i <= sizes@.len(),
                seen == count_of(sizes@.take(i as int), key),
                seen <= taken,
                seen <= i,
            ensures
                found matches Some(t) ==> t < sizes@.len() && sizes@[t as int] == key && count_of(
                    sizes@.take(t as int),
                    key,
                ) == taken,
                found is None ==> count_of(sizes@.take(sizes@.len() as int), key) <= taken,
            decreases sizes@.len() - i,
        {
            proof {
                lemma_count_step(sizes@, i as int, key);
            }
            let cand = sizes[i];
            if cand.0 == key.0 && cand.1 == key.1 {
                assert(sizes@[i as int] == key);
                if seen == taken {
                    found = Some(i);
                    break;
                }
                seen = seen + 1;
            } else {
                assert(sizes@[i as int] != key);
            }
            i = i + 1;
        }
        proof {
            if found is None {
                assert(sizes@.take(sizes@.len() as int) =~= sizes@);
            }
        }
        match found {
            None => {
                assert(!slot_possible(sizes@, placed@, atlas_count as nat, j as int));
                return None;
            },
            Some(t) => {
                proof {
                    lemma_count_step(sizes@, t as int, key);
                    lemma_count_prefix(sizes@, t as int + 1, key);
                }
                let rect = Rectangle::new(
                    Point2D::new(x, y),
                    Point2D::new(far_x as i32, far_y as i32),
                );
                slots.push(SpriteSlot { texture: t, atlas: (bucket - 1) as usize, rect });
                assert(slot_possible(sizes@, placed@, atlas_count as nat, j as int));
                assert(slot_of(sizes@, placed@, j as int, slots@[j as int]));
            },
        }
        j = j + 1;
    }
    Some(slots)
}

/// Two placed boxes never get the same texture.
pub proof fn lemma_slots_distinct(
    sizes: Seq<(u32, u32)>,
    placed: Seq<Placement>,
    j1: int,
    j2: int,
    s1: SpriteSlot,
    s2: SpriteSlot,
)
    requires
        0 <= j1 < j2 < placed.len(),
        slot_of(sizes, placed, j1, s1),
        slot_of(sizes, placed, j2, s2),
    ensures
        s1.texture != s2.texture,
{
    let ps = placed_sizes(placed);
    let x = placed_size(placed[j1]);
    if placed_size(placed[j2]) == x && s1.texture == s2.texture {
        assert(ps[j1] == x);
        lemma_count_step(ps, j1, x);
        lemma_count_prefix(ps.take(j2), j1 + 1, x);
        assert(ps.take(j2).take(j1 + 1) =~= ps.take(j1 + 1));
    }
}

/// Sprites given out by `assign_sprites` for a packing into `count` atlases
/// lie inside their atlas, and two sprites in one atlas do not overlap.
pub proof fn lemma_sprites_inside_and_apart(
    sizes: Seq<(u32, u32)>,
    placed: Seq<Placement>,
    count: nat,
    slots: Seq<SpriteSlot>,
)
    requires
        count <= i32::MAX,
        forall|i: int| 0 <= i < sizes.len() ==> #[trigger] sizes[i].0 <= 32768 && sizes[i].1 <= 32768,
        placed_from(placed, box_sizes(sizes)),
        placed_in_bins(placed, atlas_bins(count)),
        placed_apart(placed),
        slots.len() == placed.len(),
        forall|j: int| 0 <= j < placed.len() ==> #[trigger] slot_of(sizes, placed, j, slots[j]),
    ensures
        forall|j: int|
            0 <= j < slots.len() ==> {
                &&& (#[trigger] slots[j]).atlas < count
                &&& 0 <= slots[j].rect.spec_min().x <= slots[j].rect.spec_max().x <= MAX_TEXTURE_SIZE
                &&& 0 <= slots[j].rect.spec_min().y <= slots[j].rect.spec_max().y <= MAX_TEXTURE_SIZE
            },
        forall|j: int, k: int|
            0 <= j < slots.len() && 0 <= k < slots.len() && j != k && (#[trigger] slots[j]).atlas == (
            #[trigger] slots[k]).atlas ==> {
                ||| slots[j].rect.spec_max().x <= slots[k].rect.spec_min().x
                ||| slots[k].rect.spec_max().x <= slots[j].rect.spec_min().x
                ||| slots[j].rect.spec_max().y <= slots[k].rect.spec_min().y
                ||| slots[k].rect.spec_max().y <= slots[j].rect.spec_min().y
            },
{
    let bins = atlas_bins(count);
    assert forall|j: int| 0 <= j < slots.len() implies {
        &&& (#[trigger] slots[j]).atlas < count
        &&& 0 <= slots[j].rect.spec_min().x <= slots[j].rect.spec_max().x <= MAX_TEXTURE_SIZE
        &&& 0 <= slots[j].rect.spec_min().y <= slots[j].rect.spec_max().y <= MAX_TEXTURE_SIZE
    } by {
        assert(slot_of(sizes, placed, j, slots[j]));
        let p = placed[j];
        let b = choose|b: int| 0 <= b < bins.len() && inside_bin(p, #[trigger] bins[b]);
        assert(bins[b].id == b + 1);
        let bs = box_sizes(sizes);
        let i = choose|i: int| 0 <= i < bs.len() && #[trigger] bs[i] == (p.width, p.height);
        assert(sizes[i].0 <= 32768 && sizes[i].1 <= 32768);
        assert(bs[i] == (sizes[i].0 as i32, sizes[i].1 as i32));
    }
    assert forall|j: int, k: int|
        0 <= j < slots.len() && 0 <= k < slots.len() && j != k && (#[trigger] slots[j]).atlas == (
        #[trigger] slots[k]).atlas implies {
            ||| slots[j].rect.spec_max().x <= slots[k].rect.spec_min().x
            ||| slots[k].rect.spec_max().x <= slots[j].rect.spec_min().x
            ||| slots[j].rect.spec_max().y <= slots[k].rect.spec_min().y
            ||| slots[k].rect.spec_max().y <= slots[j].rect.spec_min().y
        } by {
        assert(slot_of(sizes, placed, j, slots[j]));
        assert(slot_of(sizes, placed, k, slots[k]));
        assert(apart(placed[j], placed[k]));
        let bj = choose|b: int| 0 <= b < bins.len() && inside_bin(placed[j], #[trigger] bins[b]);
        let bk = choose|b: int| 0 <= b < bins.len() && inside_bin(placed[k], #[trigger] bins[b]);
        assert(bins[bj].id == bj + 1 && bins[bk].id == bk + 1);
    }
}

/// Whether every texture fits an atlas.
pub open spec fn fit_an_atlas(sizes: Seq<(u32, u32)>) -> bool {
    forall|i: int| 0 <= i < sizes.len() ==> #[trigger] sizes[i].0 <= MAX_TEXTURE_SIZE && sizes[i].1 <= MAX_TEXTURE_SIZE
}

/// The atlases have distinct ids.
proof fn lemma_atlas_bins_distinct(count: nat)
    requires
        count <= i32::MAX,
    ensures
        distinct_ids(atlas_bins(count)),
{
}

/// Counting `b` among the images of `s` under `f` counts the same elements
/// as counting `c` among their images under `g`, when those are the
/// elements that `f` sends to `b` and `g` sends to `c`.
proof fn lemma_count_corresponds<A, B, C>(s: Seq<A>, f: spec_fn(A) -> B, g: spec_fn(A) -> C, b: B, c: C)
    requires
        forall|i: int| 0 <= i < s.len() ==> (f(#[trigger] s[i]) == b <==> g(s[i]) == c),
    ensures
        count_of(s.map_values(f), b) == count_of(s.map_values(g), c),
    decreases s.len(),
{
    if s.len() > 0 {
        lemma_count_corresponds(s.drop_last(), f, g, b, c);
        assert(s.map_values(f).drop_last() =~= s.drop_last().map_values(f));
        assert(s.map_values(g).drop_last() =~= s.drop_last().map_values(g));
        assert(s[s.len() - 1] == s.last());
    }
}

/// Every box that the packer placed into atlases can be given its texture.
proof fn lemma_packing_slots_possible(sizes: Seq<(u32, u32)>, placed: Seq<Placement>, count: nat)
    requires
        count <= i32::MAX,
        forall|i: int| 0 <= i < sizes.len() ==> #[trigger] sizes[i].0 <= 32768 && sizes[i].1 <= 32768,
        placed_from(placed, box_sizes(sizes)),
        placed_within(placed, box_sizes(sizes)),
        placed_in_bins(placed, atlas_bins(count)),
    ensures
        forall|j: int| 0 <= j < placed.len() ==> #[trigger] slot_possible(sizes, placed, count, j),
{
    let bins = atlas_bins(count);
    let bs = box_sizes(sizes);
    let ps = placed_sizes(placed);
    let ds = placed_dims(placed);
    assert forall|i: int| 0 <= i < placed.len() implies 0 <= (#[trigger] placed[i]).width <= 32768 && 0
        <= placed[i].height <= 32768 by {
        let k = choose|k: int| 0 <= k < bs.len() && #[trigger] bs[k] == (placed[i].width, placed[i].height);
        assert(sizes[k].0 <= 32768 && sizes[k].1 <= 32768);
    }
    assert forall|j: int| 0 <= j < placed.len() implies #[trigger] slot_possible(sizes, placed, count, j) by {
        let p = placed[j];
        let b = choose|b: int| 0 <= b < bins.len() && inside_bin(p, #[trigger] bins[b]);
        assert(bins[b].id == b + 1);
        let x = placed_size(p);
        let d = (p.width, p.height);
        assert(ps[j] == x);
        lemma_count_step(ps, j, x);
        lemma_count_prefix(ps, j + 1, x);
        let fsize = |q: Placement| placed_size(q);
        let fdims = |q: Placement| (q.width, q.height);
        assert(ps =~= placed.map_values(fsize));
        assert(ds =~= placed.map_values(fdims));
        assert forall|i: int| 0 <= i < placed.len() implies (fsize(#[trigger] placed[i]) == x <==> fdims(placed[i]) == d) by {
            assert(0 <= placed[i].width <= 32768 && 0 <= placed[i].height <= 32768);
        }
        lemma_count_corresponds(placed, fsize, fdims, x, d);
        assert(count_of(ds, d) <= count_of(bs, d));
        let fbox = |y: (u32, u32)| (y.0 as i32, y.1 as i32);
        let fid = |y: (u32, u32)| y;
        assert(bs =~= sizes.map_values(fbox));
        assert(sizes =~= sizes.map_values(fid));
        assert forall|i: int| 0 <= i < sizes.len() implies (fbox(#[trigger] sizes[i]) == d <==> fid(sizes[i]) == x) by {
            assert(sizes[i].0 <= 32768 && sizes[i].1 <= 32768);
        }
        lemma_count_corresponds(sizes, fbox, fid, d, x);
    }
}

/// The bytes one decoded pixel of layout `color` takes.
pub open spec fn pixel_bytes(color: ColorKind) -> nat {
    match color {
        ColorKind::L8 => 1,
        ColorKind::La8 => 2,
        ColorKind::Rgb8 => 3,
        ColorKind::Rgba8 => 4,
        ColorKind::L16 => 2,
        ColorKind::La16 => 4,
        ColorKind::Rgb16 => 6,
        ColorKind::Rgba16 => 8,
        ColorKind::Rgb32F => 12,
        ColorKind::Rgba32F => 16,
    }
}

/// The number of channels of a pixel of layout `color`.
pub open spec fn channel_count(color: ColorKind) -> nat {
    match color {
        ColorKind::L8 | ColorKind::L16 => 1,
        ColorKind::La8 | ColorKind::La16 => 2,
        ColorKind::Rgb8 | ColorKind::Rgb16 | ColorKind::Rgb32F => 3,
        ColorKind::Rgba8 | ColorKind::Rgba16 | ColorKind::Rgba32F => 4,
    }
}

/// The bytes of one channel that a conversion reads; none for `Keep`.
pub open spec fn conversion_channel_bytes(conversion: PixelConversion) -> nat {
    match conversion {
        PixelConversion::Keep => 0,
        PixelConversion::Rgb8ToRgba8 => 1,
        PixelConversion::Rgb16ToRgba16 => 2,
        PixelConversion::Rgb32FToRgba32F => 4,
    }
}

/// An image is uploaded one texel per pixel. Exactly the three-channel
/// layouts are converted, and then by the conversion for their channel
/// size, which adds a fourth channel of that size; every other layout is
/// kept as it is, in a texel format of exactly its pixel size.
pub proof fn lemma_upload_one_texel_per_pixel(color: ColorKind)
    ensures
        (upload_format(color).1 == PixelConversion::Keep) <==> channel_count(color) != 3,
        upload_format(color).1 == PixelConversion::Keep ==> texel_bytes(upload_format(color).0) == Some(
            pixel_bytes(color) as u32,
        ),
        upload_format(color).1 != PixelConversion::Keep ==> {
            &&& pixel_bytes(color) == 3 * conversion_channel_bytes(upload_format(color).1)
            &&& texel_bytes(upload_format(color).0) == Some(
                (4 * conversion_channel_bytes(upload_format(color).1)) as u32,
            )
        },
{
}

} // verus!
