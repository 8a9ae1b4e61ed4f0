//! What preparing an image comes to: which pixels a view shows, and where they end up.

use vstd::arithmetic::div_mod::*;
use vstd::prelude::*;

use crate::failure::Failure;
use crate::manifest::{ImageModel, ResizeFilter, ResizeMode};
use crate::pixels::{
    can_resize, check_grid, check_image_embedding, check_supported, check_text_embedding, grid_fits,
    image_view, law_patches_keep_every_byte, patch_inputs, patch_mask, patch_position, patches,
    planes, prepare_image, prepare_patches, resized, RgbPixels, MAX_EDGE,
};
use crate::search::ImageView;

verus! {

/// Whether an image shows the part of another whose upper left corner is at a position, pixel for
/// pixel.
pub open spec fn shows(source: RgbPixels, left: int, top: int, shown: RgbPixels) -> bool {
    &&& 0 <= left && 0 <= top
    &&& left + shown.width <= source.width && top + shown.height <= source.height
    &&& shown.data@.len() == 3 * (shown.width * shown.height)
    &&& forall|x: int, y: int, channel: int|
        0 <= x < shown.width && 0 <= y < shown.height && 0 <= channel < 3 ==> #[trigger] shown@.channel(
            x,
            y,
            channel,
        ) == source.data@[3 * ((top + y) * source.width + (left + x)) + channel]
}

/// A byte of a pixel stands in its row and its column.
pub proof fn law_channels_stand_in_rows(image: RgbPixels, x: int, y: int, channel: int)
    ensures
        image@.channel(x, y, channel) == image.data@[3 * (y * image.width + x) + channel],
{
}

/// The full view shows the whole image. The centre view is the largest square that fits, and its
/// margins on two opposite sides differ by at most one pixel. The left and the right third are as high
/// as the image, as wide as a third of it, rounded down, but at least one pixel, and reach its left
/// and its right edge.
pub proof fn law_views_show_their_part(
    source: RgbPixels,
    view: ImageView,
    shown: RgbPixels,
)
    requires
        call_ensures(image_view, (source, view), shown),
        source@.is_complete(),
        source.width > 0,
        source.height > 0,
    ensures
        view == ImageView::Full ==> shown.width == source.width && shown.height == source.height
            && shown.data@ == source.data@,
        view == ImageView::Center ==> {
            &&& shown.width == shown.height
            &&& shown.width == source.width || shown.width == source.height
            &&& shown.width <= source.width && shown.height <= source.height
            &&& exists|left: int, top: int|
                {
                    &&& #[trigger] shows(source, left, top, shown)
                    &&& 0 <= (source.width - shown.width - left) - left <= 1
                    &&& 0 <= (source.height - shown.height - top) - top <= 1
                }
        },
        view == ImageView::LeftThird || view == ImageView::RightThird ==> {
            &&& shown.height == source.height
            &&& shown.width >= 1
            &&& 3 * shown.width <= source.width || shown.width == 1
            &&& source.width < 3 * (shown.width + 1)
        },
        view == ImageView::LeftThird ==> shows(source, 0, 0, shown),
        view == ImageView::RightThird ==> shows(source, source.width - shown.width, 0, shown),
{
    let width = source.width as int;
    let height = source.height as int;
    let edge = if width < height {
        width
    } else {
        height
    };
    if view == ImageView::Center {
        let left = (width - edge) / 2;
        let top = (height - edge) / 2;
        assert(shows(source, left, top, shown));
    }
}

/// Where an image is made to cover the model's input, what is kept of it is the middle: its margins on
/// two opposite sides differ by at most one pixel. Otherwise the image is stretched. Either way the
/// result is as large as the input.
pub proof fn law_prepared_images_fit(
    source: &RgbPixels,
    model: &ImageModel,
    cover: (u32, u32),
    prepared: RgbPixels,
)
    requires
        call_ensures(prepare_image, (source, model, cover), prepared),
        model.width <= MAX_EDGE,
        model.height <= MAX_EDGE,
        model.resize_mode == ResizeMode::Stretch ==> can_resize(
            source@,
            model.width as u32,
            model.height as u32,
        ),
        model.resize_mode == ResizeMode::Cover ==> {
            &&& can_resize(source@, cover.0, cover.1)
            &&& model.width <= cover.0
            &&& model.height <= cover.1
        },
    ensures
        prepared.width == model.width,
        prepared.height == model.height,
        prepared.data@.len() == 3 * (model.width * model.height),
        model.resize_mode == ResizeMode::Stretch ==> prepared.data@ == resized(
            source@,
            model.width as u32,
            model.height as u32,
            model.resize_filter,
        ).data,
        model.resize_mode == ResizeMode::Cover ==> exists|left: int, top: int|
            {
                &&& 0 <= (cover.0 - model.width - left) - left <= 1
                &&& 0 <= (cover.1 - model.height - top) - top <= 1
                &&& #[trigger] holds_part(
                    resized(source@, cover.0, cover.1, model.resize_filter).data,
                    cover.0 as int,
                    left,
                    top,
                    prepared,
                )
            },
{
    if model.resize_mode == ResizeMode::Cover {
        let left = (cover.0 - model.width) / 2;
        let top = (cover.1 - model.height) / 2;
        let covering = resized(source@, cover.0, cover.1, model.resize_filter);
        assert forall|x: int, y: int, channel: int|
            0 <= x < prepared.width && 0 <= y < prepared.height && 0 <= channel
                < 3 implies #[trigger] prepared@.channel(x, y, channel) == covering.data[3 * ((top + y)
            * cover.0 + (left + x)) + channel] by {
            assert(covering.channel(left + x, top + y, channel) == covering.data[3 * ((top + y)
                * cover.0 + (left + x)) + channel]);
        }
        assert(holds_part(covering.data, cover.0 as int, left, top, prepared));
    }
}

/// Whether an image holds the part of the bytes of another, of a width, whose upper left corner is at
/// a position, pixel for pixel.
pub open spec fn holds_part(
    data: Seq<u8>,
    width: int,
    left: int,
    top: int,
    part: RgbPixels,
) -> bool {
    forall|x: int, y: int, channel: int|
        0 <= x < part.width && 0 <= y < part.height && 0 <= channel < 3 ==> #[trigger] part@.channel(
            x,
            y,
            channel,
        ) == data[3 * ((top + y) * width + (left + x)) + channel]
}

/// The planes of an image hold, for each channel in turn, the bytes of all pixels, row after row.
pub proof fn law_planes_stand_by_channel(
    image: &RgbPixels,
    values: Vec<u8>,
    x: int,
    y: int,
    channel: int,
)
    requires
        call_ensures(planes, (image,), values),
        image@.is_complete(),
        0 <= x < image.width,
        0 <= y < image.height,
        0 <= channel < 3,
    ensures
        values@.len() == image.data@.len(),
        values@[channel * (image.width * image.height) + (y * image.width + x)] == image.data@[3 * (y
            * image.width + x) + channel],
{
    let plane = image.width * image.height;
    let pixel = y * image.width + x;
    assert(0 <= pixel < plane) by (nonlinear_arith)
        requires
            pixel == y * image.width + x,
            plane == image.width * image.height,
            0 <= x < image.width,
            0 <= y < image.height,
    ;
    let at = channel * plane + pixel;
    assert(0 <= at < 3 * plane) by (nonlinear_arith)
        requires
            at == channel * plane + pixel,
            0 <= pixel < plane,
            0 <= channel < 3,
    ;
    lemma_fundamental_div_mod_converse(at, plane, channel, pixel);
}

/// The patches of an image stand row after row, in each its pixels row after row, and of each pixel
/// its three bytes: the pixel at column `x` and row `y` of the patch in column `across` and row `down`
/// is the one that stands there in the image.
pub proof fn law_patches_stand_in_rows(
    image: &RgbPixels,
    patch_size: usize,
    values: Vec<u8>,
    across: int,
    down: int,
    x: int,
    y: int,
    channel: int,
)
    requires
        call_ensures(patches, (image, patch_size), values),
        image@.is_complete(),
        image.width > 0,
        image.height > 0,
        patch_size > 0,
        image.width as int % patch_size as int == 0,
        image.height as int % patch_size as int == 0,
        0 <= across < image.width as int / patch_size as int,
        0 <= down < image.height as int / patch_size as int,
        0 <= x < patch_size,
        0 <= y < patch_size,
        0 <= channel < 3,
    ensures
        values@.len() == image.data@.len(),
        values@[3 * ((down * (image.width as int / patch_size as int) + across) * (patch_size
            * patch_size) + (y * patch_size + x)) + channel] == image.data@[3 * ((down * patch_size
            + y) * image.width + (across * patch_size + x)) + channel],
{
    let width = image.width as int;
    let height = image.height as int;
    let size = patch_size as int;
    let wide = width / size;
    let high = height / size;
    let column = across * size + x;
    let row = down * size + y;
    let whole = row * width + column;
    let byte = 3 * whole + channel;
    assert(width == wide * size && height == high * size) by (nonlinear_arith)
        requires
            wide == width / size,
            high == height / size,
            width % size == 0,
            height % size == 0,
            size > 0,
    ;
    assert(0 <= column < width) by (nonlinear_arith)
        requires
            column == across * size + x,
            0 <= across < wide,
            0 <= x < size,
            width == wide * size,
    ;
    assert(0 <= row < height) by (nonlinear_arith)
        requires
            row == down * size + y,
            0 <= down < high,
            0 <= y < size,
            height == high * size,
    ;
    assert(0 <= whole < width * height) by (nonlinear_arith)
        requires
            whole == row * width + column,
            0 <= column < width,
            0 <= row < height,
    ;
    law_patches_keep_every_byte(width, height, size, byte);
    assert(byte / 3 == whole && byte % 3 == channel);
    lemma_fundamental_div_mod_converse(whole, width, row, column);
    lemma_fundamental_div_mod_converse(column, size, across, x);
    lemma_fundamental_div_mod_converse(row, size, down, y);
    let patch = down * wide + across;
    let pixel = y * size + x;
    assert(patch_position(width, size, byte) == patch * (size * size * 3) + (3 * pixel + channel));
    assert(patch * (size * size * 3) + (3 * pixel + channel) == 3 * (patch * (size * size) + pixel)
        + channel) by (nonlinear_arith);
}

/// The model looks at as many patches as the image has, the first ones.
pub proof fn law_padding_is_masked(count: usize, max_num_patches: usize, mask: Vec<i64>)
    requires
        call_ensures(patch_mask, (count, max_num_patches), mask),
        count <= max_num_patches,
    ensures
        mask@.len() == max_num_patches,
        forall|i: int| 0 <= i < mask@.len() ==> (#[trigger] mask@[i] == 1 <==> i < count) && (mask@[i]
            == 0 <==> i >= count),
{
}

/// An image for a patch model has a whole patch for each place of the grid, whose first number counts
/// its rows. It is the image itself, brought to that size by linear interpolation.
pub proof fn law_grids_are_filled(
    source: &RgbPixels,
    patch_size: usize,
    grid: [usize; 2],
    prepared: RgbPixels,
)
    requires
        call_ensures(prepare_patches, (source, patch_size, grid), prepared),
        grid[0] * patch_size <= MAX_EDGE,
        grid[1] * patch_size <= MAX_EDGE,
        can_resize(source@, (grid[1] * patch_size) as u32, (grid[0] * patch_size) as u32),
    ensures
        prepared.height == grid[0] * patch_size,
        prepared.width == grid[1] * patch_size,
        prepared.data@.len() == 3 * (prepared.width * prepared.height),
        prepared.data@ == resized(
            source@,
            (grid[1] * patch_size) as u32,
            (grid[0] * patch_size) as u32,
            ResizeFilter::Bilinear,
        ).data,
{
}

/// Patches are made of an image if and only if neither it nor the patches are empty.
pub proof fn law_grids_need_an_image(
    source_height: usize,
    source_width: usize,
    patch_size: usize,
    max_num_patches: usize,
    result: Result<(), Failure>,
)
    requires
        call_ensures(check_grid, (source_height, source_width, patch_size, max_num_patches), result),
    ensures
        result is Ok <==> source_height > 0 && source_width > 0 && patch_size > 0 && max_num_patches
            > 0,
{
}

/// A grid fits if and only if it has no more patches than there may be.
pub proof fn law_fitting_grids(height: usize, width: usize, max_num_patches: usize, fits: bool)
    requires
        call_ensures(grid_fits, (height, width, max_num_patches), fits),
    ensures
        fits <==> height * width <= max_num_patches,
{
}

/// A grid is used if and only if the model lists it.
pub proof fn law_used_grids_are_listed(
    model: &ImageModel,
    grid: [usize; 2],
    result: Result<(), Failure>,
)
    requires
        call_ensures(check_supported, (model, grid), result),
    ensures
        result is Ok <==> exists|i: int|
            0 <= i < model.supported_shapes@.len() && (#[trigger] model.supported_shapes@[i])[0]
                == grid[0] && model.supported_shapes@[i][1] == grid[1],
{
}

/// A model of patches is given its mask and its shapes under the names of the manifest, and is refused
/// without either.
pub proof fn law_patch_inputs_are_named(
    model: &ImageModel,
    inputs: Result<(String, String), Failure>,
)
    requires
        call_ensures(patch_inputs, (model,), inputs),
    ensures
        inputs is Ok <==> model.pixel_attention_mask is Some && model.spatial_shapes is Some,
        inputs matches Ok(names) ==> names.0@ == model.pixel_attention_mask->Some_0@ && names.1@
            == model.spatial_shapes->Some_0@,
{
}

/// An embedding is taken if and only if it has as many values as the model's embeddings have.
pub proof fn law_embeddings_have_the_size_of_the_model(
    length: usize,
    dimensions: usize,
    image: Result<(), Failure>,
    text: Result<(), Failure>,
)
    requires
        call_ensures(check_image_embedding, (length, dimensions), image),
        call_ensures(check_text_embedding, (length, dimensions), text),
    ensures
        image is Ok <==> length == dimensions,
        text is Ok <==> length == dimensions,
{
}

} // verus!
