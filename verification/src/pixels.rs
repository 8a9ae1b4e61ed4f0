//! Preparing images for the image model: views, resizing and the order of the model's input.

use vstd::arithmetic::div_mod::lemma_fundamental_div_mod_converse;
use vstd::prelude::*;
use vstd::string::*;

use crate::failure::{plain_failure, Failure, FailureView};
use crate::manifest::{
    is_supported_shape, manifest_fault, ImageModel, Manifest, ResizeFilter, ResizeMode,
};
use crate::search::ImageView;
use crate::text;
use crate::text::decimal_text;

verus! {

/// An image of red, green and blue bytes, row after row.
#[derive(Debug, Clone, PartialEq, Eq)]
pub struct RgbPixels {
    pub width: u32,
    pub height: u32,
    pub data: Vec<u8>,
}

/// The value of [`RgbPixels`].
pub struct PixelsView {
    pub width: u32,
    pub height: u32,
    pub data: Seq<u8>,
}

impl View for RgbPixels {
    type V = PixelsView;

    open spec fn view(&self) -> PixelsView {
        PixelsView { width: self.width, height: self.height, data: self.data@ }
    }
}

impl PixelsView {
    /// Whether there are three bytes for each pixel.
    pub open spec fn is_complete(self) -> bool {
        self.data.len() == 3 * (self.width * self.height)
    }

    /// One byte of a pixel.
    pub open spec fn channel(self, x: int, y: int, channel: int) -> u8 {
        self.data[3 * (y * self.width + x) + channel]
    }
}

/// The longest edge that an image is resized to. Beyond it the single-precision coordinates of the
/// sampler can miss the last pixels of the source by so much that no weight is left for them.
pub const MAX_EDGE: u32 = 1_048_576;

/// The smaller of two numbers.
pub open spec fn least(left: int, right: int) -> int {
    if left < right {
        left
    } else {
        right
    }
}

/// The part of an image from a corner on, as far as the image goes: the rectangle's size, and its
/// pixels.
pub open spec fn is_crop(
    source: PixelsView,
    left: u32,
    top: u32,
    width: u32,
    height: u32,
    crop: PixelsView,
) -> bool {
    let from_x = least(left as int, source.width as int);
    let from_y = least(top as int, source.height as int);
    &&& crop.is_complete()
    &&& crop.width == least(width as int, source.width - from_x)
    &&& crop.height == least(height as int, source.height - from_y)
    &&& forall|x: int, y: int, channel: int|
        0 <= x < crop.width && 0 <= y < crop.height && 0 <= channel < 3 ==> #[trigger] crop.channel(
            x,
            y,
            channel,
        ) == source.channel(from_x + x, from_y + y, channel)
}

/// `image::imageops::crop_imm` and `SubImage::to_image`: a copy of the part of an image from a
/// corner on. What lies outside the image is cut off.
#[verifier::external_body]
fn crop(source: &RgbPixels, left: u32, top: u32, width: u32, height: u32) -> (part: RgbPixels)
    requires
        source@.is_complete(),
    ensures
        is_crop(source@, left, top, width, height, part@),
{
    let image = image::RgbImage::from_raw(source.width, source.height, source.data.clone()).unwrap();
    let part = image::imageops::crop_imm(&image, left, top, width, height).to_image();
    RgbPixels { width: part.width(), height: part.height(), data: part.into_raw() }
}

/// The bytes that `image::imageops::resize` returns.
pub uninterp spec fn resized_data(
    width: u32,
    height: u32,
    data: Seq<u8>,
    new_width: u32,
    new_height: u32,
    filter: ResizeFilter,
) -> Seq<u8>;

/// An image in another size.
pub open spec fn resized(
    source: PixelsView,
    width: u32,
    height: u32,
    filter: ResizeFilter,
) -> PixelsView {
    PixelsView {
        width,
        height,
        data: resized_data(source.width, source.height, source.data, width, height, filter),
    }
}

/// Whether an image can be resized: no new edge is too long, and the sampled image in between can be
/// held in memory.
pub open spec fn can_resize(source: PixelsView, width: u32, height: u32) -> bool {
    &&& source.is_complete()
    &&& width <= MAX_EDGE && height <= MAX_EDGE
    &&& 16 * (source.width * height) <= isize::MAX
    &&& 3 * (width * height) <= isize::MAX
}

proof fn lemma_area(width: u32, height: u32)
    ensures
        width * height <= 0xffff_ffff * 0xffff_ffff,
{
    assert(width * height <= 0xffff_ffff * 0xffff_ffff) by (nonlinear_arith)
        requires
            width <= 0xffff_ffff,
            height <= 0xffff_ffff,
    ;
}

/// Tells whether an image can be resized.
pub fn resizable(source: &RgbPixels, width: u32, height: u32) -> (b: bool)
    ensures
        b == can_resize(source@, width, height),
{
    if width > MAX_EDGE || height > MAX_EDGE {
        return false;
    }
    proof {
        lemma_area(source.width, source.height);
        lemma_area(source.width, height);
        lemma_area(width, height);
    }
    source.data.len() as u128 == 3 * (source.width as u128 * source.height as u128) && 16 * (
    source.width as u128 * height as u128) <= isize::MAX as u128 && 3 * (width as u128
        * height as u128) <= isize::MAX as u128
}

/// `image::imageops::resize` with the filter that stands for the given one: an image of the given
/// size. How the pixels are interpolated is only named; an image that has the size already stays
/// as it is.
#[verifier::external_body]
fn resize(source: &RgbPixels, width: u32, height: u32, filter: ResizeFilter) -> (result: RgbPixels)
    requires
        can_resize(source@, width, height),
    ensures
        result.width == width,
        result.height == height,
        result.data@ == resized_data(
            source.width,
            source.height,
            source.data@,
            width,
            height,
            filter,
        ),
        result@.is_complete(),
        source.width == width && source.height == height ==> result@.data == source@.data,
{
    let image = image::RgbImage::from_raw(source.width, source.height, source.data.clone()).unwrap();
    let filter = match filter {
        ResizeFilter::Bilinear => image::imageops::FilterType::Triangle,
        ResizeFilter::CatmullRom => image::imageops::FilterType::CatmullRom,
    };
    let result = image::imageops::resize(&image, width, height, filter);
    RgbPixels { width: result.width(), height: result.height(), data: result.into_raw() }
}

/// The rectangle that a view shows of an image: its corner and its size.
pub open spec fn view_rectangle(width: u32, height: u32, view: ImageView) -> (
    int,
    int,
    int,
    int,
) {
    let edge = least(width as int, height as int);
    let third = if width / 3 < 1 {
        1int
    } else {
        (width / 3) as int
    };
    match view {
        ImageView::Full => (0, 0, width as int, height as int),
        ImageView::Center => ((width - edge) / 2, (height - edge) / 2, edge, edge),
        ImageView::LeftThird => (0, 0, third, height as int),
        ImageView::RightThird => (width - third, 0, third, height as int),
    }
}

/// The part of an image that a view shows.
pub fn image_view(source: RgbPixels, view: ImageView) -> (shown: RgbPixels)
    requires
        source@.is_complete(),
        view == ImageView::RightThird ==> source.width > 0,
    ensures
        view == ImageView::Full ==> shown@ == source@,
        view != ImageView::Full ==> {
            let (left, top, width, height) = view_rectangle(source.width, source.height, view);
            is_crop(source@, left as u32, top as u32, width as u32, height as u32, shown@)
        },
        shown@.is_complete(),
{
    let width: u32 = source.width;
    let height: u32 = source.height;
    let third: u32 = if width / 3 < 1 {
        1
    } else {
        width / 3
    };
    match view {
        ImageView::Full => source,
        ImageView::Center => {
            let edge: u32 = if width < height {
                width
            } else {
                height
            };
            crop(&source, (width - edge) / 2, (height - edge) / 2, edge, edge)
        },
        ImageView::LeftThird => crop(&source, 0, 0, third, height),
        ImageView::RightThird => crop(&source, width - third, 0, third, height),
    }
}

/// The view of an image that is not empty lies within it, is not empty, and shows the pixels that
/// stand there.
pub proof fn law_view_lies_within(width: u32, height: u32, view: ImageView)
    requires
        width > 0,
        height > 0,
    ensures
        ({
            let (left, top, shown_width, shown_height) = view_rectangle(width, height, view);
            &&& 0 <= left && 0 <= top && 0 < shown_width && 0 < shown_height
            &&& left + shown_width <= width
            &&& top + shown_height <= height
        }),
{
}

/// What an image becomes before it is given to the image model. `cover` is the size at which the
/// image covers the model's input, of which the middle is kept.
pub open spec fn is_prepared(
    source: PixelsView,
    model: ImageModel,
    cover: (u32, u32),
    prepared: PixelsView,
) -> bool {
    let width = model.width as u32;
    let height = model.height as u32;
    match model.resize_mode {
        ResizeMode::Stretch => prepared == resized(source, width, height, model.resize_filter),
        ResizeMode::Cover => is_crop(
            resized(source, cover.0, cover.1, model.resize_filter),
            ((cover.0 - width) / 2) as u32,
            ((cover.1 - height) / 2) as u32,
            width,
            height,
            prepared,
        ),
    }
}

/// Brings an image to the size of the model's input.
pub fn prepare_image(source: &RgbPixels, model: &ImageModel, cover: (u32, u32)) -> (prepared:
    RgbPixels)
    requires
        model.width <= MAX_EDGE,
        model.height <= MAX_EDGE,
        model.resize_mode == ResizeMode::Stretch ==> can_resize(
            source@,
            model.width as u32,
            model.height as u32,
        ),
        model.resize_mode == ResizeMode::Cover ==> {
            &&& can_resize(source@, cover.0, cover.1)
            &&& model.width <= cover.0
            &&& model.height <= cover.1
        },
    ensures
        is_prepared(source@, *model, cover, prepared@),
        prepared@.is_complete(),
        prepared.width == model.width,
        prepared.height == model.height,
{
    let width: u32 = model.width as u32;
    let height: u32 = model.height as u32;
    match model.resize_mode {
        ResizeMode::Stretch => resize(source, width, height, model.resize_filter),
        ResizeMode::Cover => {
            let covering = resize(source, cover.0, cover.1, model.resize_filter);
            crop(&covering, (cover.0 - width) / 2, (cover.1 - height) / 2, width, height)
        },
    }
}

/// The bytes of an image plane by plane: all red ones, then all green ones, then all blue ones.
pub fn planes(image: &RgbPixels) -> (values: Vec<u8>)
    requires
        image@.is_complete(),
    ensures
        values@ == Seq::new(
            image@.data.len(),
            |i: int|
                image@.data[3 * (i % (image.width * image.height)) + i / (image.width
                    * image.height)],
        ),
{
    let total: usize = image.data.len();
    let plane: usize = total / 3;
    let mut values: Vec<u8> = Vec::new();
    let mut position: usize = 0;
    while position < total
        invariant
            position <= total,
            total == image@.data.len(),
            total == 3 * plane,
            plane == image.width * image.height,
            values@ == Seq::new(
                position as nat,
                |i: int|
                    image@.data[3 * (i % (image.width * image.height)) + i / (image.width
                        * image.height)],
            ),
        decreases total - position,
    {
        let channel: usize = position / plane;
        let pixel: usize = position % plane;
        proof {
            assert(position / plane < 3 && 0 <= position % plane < plane) by (nonlinear_arith)
                requires
                    0 <= position < 3 * plane,
            ;
        }
        values.push(image.data[3 * pixel + channel]);
        assert(values@ =~= Seq::new(
            (position + 1) as nat,
            |i: int|
                image@.data[3 * (i % (image.width * image.height)) + i / (image.width
                    * image.height)],
        ));
        position = position + 1;
    }
    values
}

/// Where a byte of a patch stands in the image: patches row after row, in each its pixels row after
/// row.
pub open spec fn patch_source(width: int, patch_size: int, patches_wide: int, position: int) -> int {
    let stride = patch_size * patch_size * 3;
    let patch = position / stride;
    let pixel = (position % stride) / 3;
    let x = (patch % patches_wide) * patch_size + pixel % patch_size;
    let y = (patch / patches_wide) * patch_size + pixel / patch_size;
    3 * (y * width + x) + (position % stride) % 3
}

proof fn lemma_patch_source(
    width: int,
    height: int,
    patch_size: int,
    position: int,
)
    requires
        width > 0,
        height > 0,
        patch_size > 0,
        width % patch_size == 0,
        height % patch_size == 0,
        0 <= position < 3 * (width * height),
    ensures
        0 <= patch_source(width, patch_size, width / patch_size, position) < 3 * (width * height),
        0 <= position / (patch_size * patch_size * 3),
        width / patch_size > 0,
{
    let wide = width / patch_size;
    let high = height / patch_size;
    let stride = patch_size * patch_size * 3;
    assert(width == wide * patch_size && height == high * patch_size) by (nonlinear_arith)
        requires
            wide == width / patch_size,
            high == height / patch_size,
            width % patch_size == 0,
            height % patch_size == 0,
            patch_size > 0,
    ;
    assert(wide > 0 && high > 0) by (nonlinear_arith)
        requires
            width == wide * patch_size,
            height == high * patch_size,
            width > 0,
            height > 0,
            patch_size > 0,
    ;
    assert(3 * (width * height) == (wide * high) * stride && stride > 0) by (nonlinear_arith)
        requires
            width == wide * patch_size,
            height == high * patch_size,
            stride == patch_size * patch_size * 3,
            patch_size > 0,
    ;
    let patch = position / stride;
    let within = position % stride;
    let total = wide * high;
    assert(0 <= patch < total && 0 <= within < stride) by (nonlinear_arith)
        requires
            patch == position / stride,
            within == position % stride,
            0 <= position < total * stride,
            stride > 0,
    ;
    let pixel = within / 3;
    assert(0 <= pixel < patch_size * patch_size) by (nonlinear_arith)
        requires
            pixel == within / 3,
            0 <= within < stride,
            stride == patch_size * patch_size * 3,
    ;
    assert(0 <= pixel % patch_size < patch_size && 0 <= pixel / patch_size < patch_size)
        by (nonlinear_arith)
        requires
            0 <= pixel < patch_size * patch_size,
            patch_size > 0,
    ;
    assert(0 <= patch % wide < wide && 0 <= patch / wide < high) by (nonlinear_arith)
        requires
            0 <= patch < wide * high,
            wide > 0,
    ;
    let x = (patch % wide) * patch_size + pixel % patch_size;
    let y = (patch / wide) * patch_size + pixel / patch_size;
    assert(0 <= x < width) by (nonlinear_arith)
        requires
            x == (patch % wide) * patch_size + pixel % patch_size,
            0 <= pixel % patch_size < patch_size,
            0 <= patch % wide < wide,
            width == wide * patch_size,
    ;
    assert(0 <= y < height) by (nonlinear_arith)
        requires
            y == (patch / wide) * patch_size + pixel / patch_size,
            0 <= pixel / patch_size < patch_size,
            0 <= patch / wide < high,
            height == high * patch_size,
    ;
    assert(0 <= y * width + x < width * height) by (nonlinear_arith)
        requires
            0 <= x < width,
            0 <= y < height,
    ;
}

/// The bytes of an image patch by patch.
pub fn patches(image: &RgbPixels, patch_size: usize) -> (values: Vec<u8>)
    requires
        image@.is_complete(),
        image.width > 0,
        image.height > 0,
        patch_size > 0,
        image.width as int % patch_size as int == 0,
        image.height as int % patch_size as int == 0,
    ensures
        values@ == Seq::new(
            image@.data.len(),
            |i: int|
                image@.data[patch_source(
                    image.width as int,
                    patch_size as int,
                    image.width as int / patch_size as int,
                    i,
                )],
        ),
{
    let total: usize = image.data.len();
    let width: usize = image.width as usize;
    let height: usize = image.height as usize;
    let wide: usize = width / patch_size;
    proof {
        assert(patch_size <= width && patch_size <= height) by (nonlinear_arith)
            requires
                width > 0,
                height > 0,
                patch_size > 0,
                width as int % patch_size as int == 0,
                height as int % patch_size as int == 0,
        ;
        assert(3 * (patch_size * patch_size) <= 3 * (width * height)) by (nonlinear_arith)
            requires
                patch_size <= width,
                patch_size <= height,
        ;
        assert(patch_size * patch_size * 3 == 3 * (patch_size * patch_size)) by (nonlinear_arith);
        assert(0 < patch_size * patch_size) by (nonlinear_arith)
            requires
                patch_size > 0,
        ;
    }
    let stride: usize = patch_size * patch_size * 3;
    let mut values: Vec<u8> = Vec::new();
    let mut position: usize = 0;
    while position < total
        invariant
            position <= total,
            total == image@.data.len(),
            total == 3 * (width * height),
            width == image.width,
            height == image.height,
            width > 0,
            height > 0,
            patch_size > 0,
            width as int % patch_size as int == 0,
            height as int % patch_size as int == 0,
            wide == width / patch_size,
            stride == patch_size * patch_size * 3,
            stride > 0,
            values@ == Seq::new(
                position as nat,
                |i: int|
                    image@.data[patch_source(
                        width as int,
                        patch_size as int,
                        width as int / patch_size as int,
                        i,
                    )],
            ),
        decreases total - position,
    {
        proof {
            lemma_patch_source(width as int, height as int, patch_size as int, position as int);
        }
        let patch: usize = position / stride;
        let within: usize = position % stride;
        let pixel: usize = within / 3;
        let ghost x = (patch % wide) * patch_size + pixel % patch_size;
        let ghost y = (patch / wide) * patch_size + pixel / patch_size;
        proof {
            assert(0 <= x && 0 <= y && 0 <= (patch % wide) * patch_size && 0 <= (patch / wide)
                * patch_size) by (nonlinear_arith)
                requires
                    x == (patch % wide) * patch_size + pixel % patch_size,
                    y == (patch / wide) * patch_size + pixel / patch_size,
                    patch_size > 0,
                    wide > 0,
            ;
            assert(y <= y * width && 0 <= y * width) by (nonlinear_arith)
                requires
                    0 <= y,
                    width > 0,
            ;
        }
        let column: usize = (patch % wide) * patch_size + pixel % patch_size;
        let row: usize = (patch / wide) * patch_size + pixel / patch_size;
        let source: usize = 3 * (row * width + column) + within % 3;
        values.push(image.data[source]);
        assert(values@ =~= Seq::new(
            (position + 1) as nat,
            |i: int|
                image@.data[patch_source(
                    width as int,
                    patch_size as int,
                    width as int / patch_size as int,
                    i,
                )],
        ));
        position = position + 1;
    }
    values
}

/// Resizes an image to a grid of patches.
pub fn prepare_patches(source: &RgbPixels, patch_size: usize, grid: [usize; 2]) -> (prepared:
    RgbPixels)
    requires
        grid[0] * patch_size <= MAX_EDGE,
        grid[1] * patch_size <= MAX_EDGE,
        can_resize(source@, (grid[1] * patch_size) as u32, (grid[0] * patch_size) as u32),
    ensures
        prepared@ == resized(
            source@,
            (grid[1] * patch_size) as u32,
            (grid[0] * patch_size) as u32,
            ResizeFilter::Bilinear,
        ),
        prepared@.is_complete(),
{
    let width: usize = grid[1] * patch_size;
    let height: usize = grid[0] * patch_size;
    resize(source, width as u32, height as u32, ResizeFilter::Bilinear)
}

/// Which patches the model looks at: the first `count`.
pub fn patch_mask(count: usize, max_num_patches: usize) -> (mask: Vec<i64>)
    requires
        count <= max_num_patches,
    ensures
        mask@ == Seq::new(
            max_num_patches as nat,
            |i: int|
                if i < count {
                    1i64
                } else {
                    0i64
                },
        ),
{
    let mut mask: Vec<i64> = Vec::new();
    mask.resize(count, 1);
    let ghost seen = mask@;
    assert(seen =~= Seq::new(count as nat, |i: int| 1i64));
    mask.resize(max_num_patches, 0);
    assert(mask@.take(count as int) =~= seen);
    assert forall|i: int| 0 <= i < count implies mask@[i] == 1 by {
        assert(mask@.take(count as int)[i] == seen[i]);
    }
    assert(mask@ =~= Seq::new(
        max_num_patches as nat,
        |i: int|
            if i < count {
                1i64
            } else {
                0i64
            },
    ));
    mask
}

/// The two inputs, besides the patches, that a patch model is given: the names of its mask and of
/// its shapes, or the failure where one is missing.
pub fn patch_inputs(model: &ImageModel) -> (inputs: Result<(String, String), Failure>)
    ensures
        match (model.pixel_attention_mask, model.spatial_shapes) {
            (Some(mask), Some(shapes)) => inputs matches Ok(names) && names.0@ == mask@
                && names.1@ == shapes@,
            (None, _) => inputs matches Err(failure) && failure@ == plain_failure(
                "patch image model is missing pixelAttentionMask"@,
            ),
            (Some(_), None) => inputs matches Err(failure) && failure@ == plain_failure(
                "patch image model is missing spatialShapes"@,
            ),
        },
{
    let mask = match &model.pixel_attention_mask {
        Some(mask) => mask.clone(),
        None => return Err(Failure::plain("patch image model is missing pixelAttentionMask")),
    };
    match &model.spatial_shapes {
        Some(shapes) => Ok((mask, shapes.clone())),
        None => Err(Failure::plain("patch image model is missing spatialShapes")),
    }
}

/// What keeps an image from being split into patches.
pub open spec fn grid_fault(
    source_height: usize,
    source_width: usize,
    patch_size: usize,
    max_num_patches: usize,
) -> Option<FailureView> {
    if source_height == 0 || source_width == 0 {
        Some(plain_failure("patch image source is empty"@))
    } else if patch_size == 0 || max_num_patches == 0 {
        Some(plain_failure("invalid patch image configuration"@))
    } else {
        None
    }
}

/// Checks that an image can be split into patches.
pub fn check_grid(
    source_height: usize,
    source_width: usize,
    patch_size: usize,
    max_num_patches: usize,
) -> (result: Result<(), Failure>)
    ensures
        match (
            result,
            grid_fault(source_height, source_width, patch_size, max_num_patches),
        ) {
            (Ok(_), None) => true,
            (Err(failure), Some(fault)) => failure@ == fault,
            _ => false,
        },
{
    if source_height == 0 || source_width == 0 {
        return Err(Failure::plain("patch image source is empty"));
    }
    if patch_size == 0 || max_num_patches == 0 {
        return Err(Failure::plain("invalid patch image configuration"));
    }
    Ok(())
}

/// Whether a grid has no more patches than the model takes.
pub fn grid_fits(height: usize, width: usize, max_num_patches: usize) -> (fits: bool)
    ensures
        fits == (height * width <= max_num_patches),
{
    match height.checked_mul(width) {
        Some(patches) => patches <= max_num_patches,
        None => false,
    }
}

/// Whether a grid is among those that a model supports.
pub open spec fn is_listed(shapes: Seq<[usize; 2]>, grid: [usize; 2]) -> bool {
    exists|i: int|
        0 <= i < shapes.len() && (#[trigger] shapes[i])[0] == grid[0] && shapes[i][1] == grid[1]
}

/// Checks that a model supports a grid.
pub fn check_supported(model: &ImageModel, grid: [usize; 2]) -> (result: Result<(), Failure>)
    ensures
        match result {
            Ok(_) => is_listed(model.supported_shapes@, grid),
            Err(failure) => !is_listed(model.supported_shapes@, grid) && failure@ == plain_failure(
                "patch grid "@ + decimal_text(grid[0] as nat) + "x"@ + decimal_text(grid[1] as nat)
                    + " is not supported by the model pack"@,
            ),
        },
{
    let mut position: usize = 0;
    while position < model.supported_shapes.len()
        invariant
            position <= model.supported_shapes@.len(),
            forall|i: int|
                0 <= i < position ==> !((#[trigger] model.supported_shapes@[i])[0] == grid[0]
                    && model.supported_shapes@[i][1] == grid[1]),
        decreases model.supported_shapes@.len() - position,
    {
        let shape = &model.supported_shapes[position];
        if shape[0] == grid[0] && shape[1] == grid[1] {
            return Ok(());
        }
        position = position + 1;
    }
    let height = text::join("patch grid ", text::decimal(grid[0] as u64).as_str());
    let width = text::join(
        text::join(height.as_str(), "x").as_str(),
        text::decimal(grid[1] as u64).as_str(),
    );
    Err(
        Failure::plain(text::join(width.as_str(), " is not supported by the model pack").as_str()),
    )
}

/// Checks that the image model answered with an embedding of the right size.
pub fn check_image_embedding(length: usize, dimensions: usize) -> (result: Result<(), Failure>)
    ensures
        match result {
            Ok(_) => length == dimensions,
            Err(failure) => length != dimensions && failure@ == plain_failure(
                "unexpected image embedding shape"@,
            ),
        },
{
    if length != dimensions {
        return Err(Failure::plain("unexpected image embedding shape"));
    }
    Ok(())
}

/// Checks that the text model answered with an embedding of the right size.
pub fn check_text_embedding(length: usize, dimensions: usize) -> (result: Result<(), Failure>)
    ensures
        match result {
            Ok(_) => length == dimensions,
            Err(failure) => length != dimensions && failure@ == plain_failure(
                "unexpected text embedding shape"@,
            ),
        },
{
    if length != dimensions {
        return Err(Failure::plain("unexpected text embedding shape"));
    }
    Ok(())
}

/// Where a byte of an image stands among its planes.
pub open spec fn plane_position(plane: int, byte: int) -> int {
    (byte % 3) * plane + byte / 3
}

/// The planes hold every byte of an image exactly once.
pub proof fn law_planes_keep_every_byte(plane: int, byte: int, position: int)
    requires
        plane > 0,
        0 <= byte < 3 * plane,
        0 <= position < 3 * plane,
    ensures
        0 <= plane_position(plane, byte) < 3 * plane,
        3 * (plane_position(plane, byte) % plane) + plane_position(plane, byte) / plane == byte,
        3 * (position % plane) + position / plane == byte ==> position == plane_position(
            plane,
            byte,
        ),
{
    let channel = byte % 3;
    let pixel = byte / 3;
    let own = plane_position(plane, byte);
    assert(0 <= own < 3 * plane) by (nonlinear_arith)
        requires
            own == channel * plane + pixel,
            0 <= channel < 3,
            0 <= pixel < plane,
    ;
    lemma_fundamental_div_mod_converse(own, plane, channel, pixel);
    let other_channel = position / plane;
    let other_pixel = position % plane;
    assert(0 <= other_channel < 3 && 0 <= other_pixel < plane && position == other_channel * plane
        + other_pixel) by (nonlinear_arith)
        requires
            other_channel == position / plane,
            other_pixel == position % plane,
            0 <= position < 3 * plane,
            plane > 0,
    ;
    if 3 * other_pixel + other_channel == byte {
        assert(other_channel == channel && other_pixel == pixel);
    }
}

/// Where a byte of an image stands among its patches.
pub open spec fn patch_position(width: int, patch_size: int, byte: int) -> int {
    let x = (byte / 3) % width;
    let y = (byte / 3) / width;
    let patch = (y / patch_size) * (width / patch_size) + x / patch_size;
    let pixel = (y % patch_size) * patch_size + x % patch_size;
    patch * (patch_size * patch_size * 3) + (3 * pixel + byte % 3)
}

/// The patches hold every byte of an image: each stands at its place among them.
pub proof fn law_patches_keep_every_byte(width: int, height: int, patch_size: int, byte: int)
    requires
        width > 0,
        height > 0,
        patch_size > 0,
        width % patch_size == 0,
        height % patch_size == 0,
        0 <= byte < 3 * (width * height),
    ensures
        0 <= patch_position(width, patch_size, byte) < 3 * (width * height),
        patch_source(
            width,
            patch_size,
            width / patch_size,
            patch_position(width, patch_size, byte),
        ) == byte,
{
    let wide = width / patch_size;
    let high = height / patch_size;
    let area = patch_size * patch_size;
    let stride = patch_size * patch_size * 3;
    assert(width == wide * patch_size && height == high * patch_size && wide > 0 && high > 0)
        by (nonlinear_arith)
        requires
            wide == width / patch_size,
            high == height / patch_size,
            width % patch_size == 0,
            height % patch_size == 0,
            patch_size > 0,
            width > 0,
            height > 0,
    ;
    let whole = byte / 3;
    let x = whole % width;
    let y = whole / width;
    assert(0 <= x < width && 0 <= y < height && whole == y * width + x) by (nonlinear_arith)
        requires
            x == whole % width,
            y == whole / width,
            0 <= whole < width * height,
            width > 0,
    ;
    let column = x / patch_size;
    let inner_x = x % patch_size;
    let row = y / patch_size;
    let inner_y = y % patch_size;
    assert(0 <= column < wide && 0 <= inner_x < patch_size && x == column * patch_size + inner_x)
        by (nonlinear_arith)
        requires
            column == x / patch_size,
            inner_x == x % patch_size,
            0 <= x < wide * patch_size,
            patch_size > 0,
    ;
    assert(0 <= row < high && 0 <= inner_y < patch_size && y == row * patch_size + inner_y)
        by (nonlinear_arith)
        requires
            row == y / patch_size,
            inner_y == y % patch_size,
            0 <= y < high * patch_size,
            patch_size > 0,
    ;
    let patch = row * wide + column;
    let pixel = inner_y * patch_size + inner_x;
    let within = 3 * pixel + byte % 3;
    let position = patch * stride + within;
    assert(0 <= pixel < area) by (nonlinear_arith)
        requires
            pixel == inner_y * patch_size + inner_x,
            0 <= inner_x < patch_size,
            0 <= inner_y < patch_size,
            area == patch_size * patch_size,
    ;
    assert(stride == 3 * area) by (nonlinear_arith)
        requires
            stride == patch_size * patch_size * 3,
            area == patch_size * patch_size,
    ;
    assert(0 <= patch < wide * high) by (nonlinear_arith)
        requires
            patch == row * wide + column,
            0 <= column < wide,
            0 <= row < high,
    ;
    assert(0 <= position < 3 * (width * height)) by (nonlinear_arith)
        requires
            position == patch * stride + within,
            0 <= within < stride,
            0 <= patch < wide * high,
            width == wide * patch_size,
            height == high * patch_size,
            stride == patch_size * patch_size * 3,
    ;
    lemma_fundamental_div_mod_converse(position, stride, patch, within);
    lemma_fundamental_div_mod_converse(patch, wide, row, column);
    lemma_fundamental_div_mod_converse(pixel, patch_size, inner_y, inner_x);
    assert(within / 3 == pixel && within % 3 == byte % 3);
    assert(patch_position(width, patch_size, byte) == position);
}

/// A grid that a checked manifest lists is not empty, and has no more patches than the model takes.
pub proof fn law_listed_grid_fits(manifest: Manifest, limit: usize, grid: [usize; 2])
    requires
        manifest_fault(manifest) is None,
        manifest.image.max_num_patches == Some(limit),
        is_listed(manifest.image.supported_shapes@, grid),
    ensures
        grid[0] > 0,
        grid[1] > 0,
        grid[0] * grid[1] <= limit,
{
    let shapes = manifest.image.supported_shapes@;
    let i = choose|i: int|
        0 <= i < shapes.len() && (#[trigger] shapes[i])[0] == grid[0] && shapes[i][1] == grid[1];
    assert(is_supported_shape(shapes[i], limit));
}

} // verus!
