//! The manifest of a model pack.

use vstd::prelude::*;
use vstd::string::*;

use crate::failure::{plain_failure, Failure, FailureView};
use crate::names::{manifest_identity, pack_identity};
use crate::text;

verus! {

/// What a model pack says of its two models. Floating-point members are held as bit patterns.
#[derive(Debug, Clone)]
pub struct Manifest {
    pub format: u32,
    pub id: String,
    pub version: String,
    pub dimensions: usize,
    pub context_length: usize,
    pub image: ImageModel,
    pub text: TextModel,
}

/// The image model of a pack.
#[derive(Debug, Clone)]
pub struct ImageModel {
    pub model: String,
    pub width: usize,
    pub height: usize,
    pub mean: [u32; 3],
    pub std: [u32; 3],
    pub resize_mode: ResizeMode,
    pub resize_filter: ResizeFilter,
    pub input: String,
    pub output: String,
    pub patch_size: Option<usize>,
    pub max_num_patches: Option<usize>,
    pub pixel_attention_mask: Option<String>,
    pub spatial_shapes: Option<String>,
    pub supported_shapes: Vec<[usize; 2]>,
}

/// How an image is brought to the size of the model's input.
#[derive(Debug, Clone, Copy, PartialEq, Eq, Structural)]
pub enum ResizeMode {
    Cover,
    Stretch,
}

impl Default for ResizeMode {
    fn default() -> (mode: Self)
        ensures
            mode == ResizeMode::Cover,
    {
        ResizeMode::Cover
    }
}

/// How pixels are interpolated.
#[derive(Debug, Clone, Copy, PartialEq, Eq, Structural)]
pub enum ResizeFilter {
    Bilinear,
    CatmullRom,
}

impl Default for ResizeFilter {
    fn default() -> (filter: Self)
        ensures
            filter == ResizeFilter::CatmullRom,
    {
        ResizeFilter::CatmullRom
    }
}

/// The text model of a pack.
#[derive(Debug, Clone)]
pub struct TextModel {
    pub model: String,
    pub tokenizer: String,
    pub input: String,
    pub attention_mask: Option<String>,
    pub mask_padding: bool,
    pub lowercase: bool,
    pub output: String,
    pub eos_token: u32,
    pub pad_token: u32,
    pub token_embeddings: Option<TokenEmbeddingModel>,
    pub projection: Option<TextProjectionModel>,
}

/// A table of token embeddings that is kept outside the text model.
#[derive(Debug, Clone)]
pub struct TokenEmbeddingModel {
    pub table: String,
    pub input: String,
    pub rows: usize,
    pub dimensions: usize,
    pub scale: u32,
    pub zero_point: u8,
}

/// A projection that is applied to the text model's output.
#[derive(Debug, Clone)]
pub struct TextProjectionModel {
    pub path: String,
    pub input_dimensions: usize,
    pub output_dimensions: usize,
}

/// Whether a bit pattern is that of a finite single-precision number above zero.
pub open spec fn is_positive_finite(bits: u32) -> bool {
    0 < bits < 0x7f80_0000
}

/// Whether a patch grid is not empty and has no more than `limit` patches.
pub open spec fn is_supported_shape(shape: [usize; 2], limit: usize) -> bool {
    shape[0] > 0 && shape[1] > 0 && shape[0] * shape[1] <= limit
}

/// What is wrong with the size of the image model's input.
pub open spec fn image_fault(image: ImageModel) -> Option<FailureView> {
    match (image.patch_size, image.max_num_patches) {
        (None, None) => if image.width > 0 && image.height > 0 {
            None
        } else {
            Some(plain_failure("semantic image dimensions must be positive"@))
        },
        (Some(patch_size), Some(max_num_patches)) => if !(patch_size > 0 && max_num_patches > 0) {
            Some(plain_failure("invalid patch image configuration"@))
        } else if image.pixel_attention_mask is None || image.spatial_shapes is None {
            Some(plain_failure("patch image inputs are incomplete"@))
        } else if image.supported_shapes@.len() == 0 {
            Some(plain_failure("patch image shapes are empty"@))
        } else if !(forall|i: int|
            0 <= i < image.supported_shapes@.len() ==> is_supported_shape(
                #[trigger] image.supported_shapes@[i],
                max_num_patches,
            )) {
            Some(plain_failure("invalid supported patch image shape"@))
        } else {
            None
        },
        _ => Some(plain_failure("patch image configuration is incomplete"@)),
    }
}

/// The first thing that is wrong with a manifest.
pub open spec fn manifest_fault(manifest: Manifest) -> Option<FailureView> {
    if manifest.format != 1 {
        Some(plain_failure("unsupported semantic model-pack format"@))
    } else if text::is_blank(manifest.id@) {
        Some(plain_failure("semantic model id is empty"@))
    } else if text::is_blank(manifest.version@) {
        Some(plain_failure("semantic model version is empty"@))
    } else if manifest.dimensions == 0 {
        Some(plain_failure("semantic model dimensions must be positive"@))
    } else if manifest.context_length <= 1 {
        Some(plain_failure("semantic context length must exceed one"@))
    } else if !(forall|i: int| 0 <= i < 3 ==> is_positive_finite(#[trigger] manifest.image.std[i])) {
        Some(plain_failure("semantic image standard deviations must be positive"@))
    } else {
        image_fault(manifest.image)
    }
}

fn check_shapes(shapes: &Vec<[usize; 2]>, limit: usize) -> (valid: bool)
    ensures
        valid == forall|i: int|
            0 <= i < shapes@.len() ==> is_supported_shape(#[trigger] shapes@[i], limit),
{
    let mut position: usize = 0;
    while position < shapes.len()
        invariant
            position <= shapes@.len(),
            forall|i: int| 0 <= i < position ==> is_supported_shape(#[trigger] shapes@[i], limit),
        decreases shapes@.len() - position,
    {
        let height: usize = shapes[position][0];
        let width: usize = shapes[position][1];
        let supported = match height.checked_mul(width) {
            Some(patches) => height > 0 && width > 0 && patches <= limit,
            None => false,
        };
        if !supported {
            assert(!is_supported_shape(shapes@[position as int], limit));
            return false;
        }
        assert(is_supported_shape(shapes@[position as int], limit));
        position = position + 1;
    }
    true
}

fn check_image(image: &ImageModel) -> (result: Result<(), Failure>)
    ensures
        match (result, image_fault(*image)) {
            (Ok(_), None) => true,
            (Err(failure), Some(fault)) => failure@ == fault,
            _ => false,
        },
{
    match (image.patch_size, image.max_num_patches) {
        (None, None) => {
            if image.width == 0 || image.height == 0 {
                return Err(Failure::plain("semantic image dimensions must be positive"));
            }
            Ok(())
        },
        (Some(patch_size), Some(max_num_patches)) => {
            if patch_size == 0 || max_num_patches == 0 {
                return Err(Failure::plain("invalid patch image configuration"));
            }
            if image.pixel_attention_mask.is_none() || image.spatial_shapes.is_none() {
                return Err(Failure::plain("patch image inputs are incomplete"));
            }
            if image.supported_shapes.len() == 0 {
                return Err(Failure::plain("patch image shapes are empty"));
            }
            if !check_shapes(&image.supported_shapes, max_num_patches) {
                return Err(Failure::plain("invalid supported patch image shape"));
            }
            Ok(())
        },
        _ => Err(Failure::plain("patch image configuration is incomplete")),
    }
}

/// Checks a manifest.
pub fn validate_manifest(manifest: &Manifest) -> (result: Result<(), Failure>)
    ensures
        match (result, manifest_fault(*manifest)) {
            (Ok(_), None) => true,
            (Err(failure), Some(fault)) => failure@ == fault,
            _ => false,
        },
{
    if manifest.format != 1 {
        return Err(Failure::plain("unsupported semantic model-pack format"));
    }
    if text::blank(manifest.id.as_str()) {
        return Err(Failure::plain("semantic model id is empty"));
    }
    if text::blank(manifest.version.as_str()) {
        return Err(Failure::plain("semantic model version is empty"));
    }
    if manifest.dimensions == 0 {
        return Err(Failure::plain("semantic model dimensions must be positive"));
    }
    if manifest.context_length <= 1 {
        return Err(Failure::plain("semantic context length must exceed one"));
    }
    let std = &manifest.image.std;
    let mut channel: usize = 0;
    while channel < 3
        invariant
            channel <= 3,
            *std == manifest.image.std,
            forall|i: int| 0 <= i < channel ==> is_positive_finite(#[trigger] manifest.image.std[i]),
            manifest.format == 1,
            !text::is_blank(manifest.id@),
            !text::is_blank(manifest.version@),
            manifest.dimensions > 0,
            manifest.context_length > 1,
        decreases 3 - channel,
    {
        if std[channel] == 0 || std[channel] >= 0x7f80_0000 {
            assert(!is_positive_finite(manifest.image.std[channel as int]));
            return Err(Failure::plain("semantic image standard deviations must be positive"));
        }
        channel = channel + 1;
    }
    check_image(&manifest.image)
}

/// Why an index cannot be searched with a model: it belongs to another one, or its embeddings have
/// another size.
pub open spec fn index_fault(
    index_model: Seq<char>,
    index_dimensions: nat,
    manifest: Manifest,
) -> Option<FailureView> {
    let expected = pack_identity(manifest.id@, manifest.version@);
    if index_model != expected {
        Some(
            plain_failure(
                "index uses "@ + index_model + " but model pack requires "@ + expected,
            ),
        )
    } else if index_dimensions != manifest.dimensions {
        Some(
            plain_failure(
                "index has "@ + text::decimal_text(index_dimensions)
                    + " dimensions but model expects "@ + text::decimal_text(
                    manifest.dimensions as nat,
                ),
            ),
        )
    } else {
        None
    }
}

/// Checks that an index belongs to a model.
pub fn check_index(index_model: &str, index_dimensions: usize, manifest: &Manifest) -> (result:
    Result<(), Failure>)
    ensures
        match (result, index_fault(index_model@, index_dimensions as nat, *manifest)) {
            (Ok(_), None) => true,
            (Err(failure), Some(fault)) => failure@ == fault,
            _ => false,
        },
{
    let expected = manifest_identity(manifest.id.as_str(), manifest.version.as_str());
    if !text::same(index_model, expected.as_str()) {
        let found = text::join(
            text::join("index uses ", index_model).as_str(),
            " but model pack requires ",
        );
        return Err(Failure::plain(text::join(found.as_str(), expected.as_str()).as_str()));
    }
    if index_dimensions != manifest.dimensions {
        let found = text::join(
            text::join("index has ", text::decimal(index_dimensions as u64).as_str()).as_str(),
            " dimensions but model expects ",
        );
        let message = text::join(
            found.as_str(),
            text::decimal(manifest.dimensions as u64).as_str(),
        );
        return Err(Failure::plain(message.as_str()));
    }
    Ok(())
}

/// The image input's name where a manifest gives none.
pub fn default_image_input() -> (name: String)
    ensures
        name@ == "images"@,
{
    "images".to_owned()
}

/// The image output's name where a manifest gives none.
pub fn default_image_output() -> (name: String)
    ensures
        name@ == "image_embedding"@,
{
    "image_embedding".to_owned()
}

/// The text input's name where a manifest gives none.
pub fn default_text_input() -> (name: String)
    ensures
        name@ == "tokens"@,
{
    "tokens".to_owned()
}

/// The text output's name where a manifest gives none.
pub fn default_text_output() -> (name: String)
    ensures
        name@ == "text_embedding"@,
{
    "text_embedding".to_owned()
}

/// Whether padding is masked where a manifest does not say.
pub fn default_mask_padding() -> (masked: bool)
    ensures
        masked,
{
    true
}

/// The end-of-text token where a manifest gives none.
pub fn default_eos_token() -> (token: u32)
    ensures
        token == 49_407,
{
    49_407
}

} // verus!
