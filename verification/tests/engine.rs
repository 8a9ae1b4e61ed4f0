use skwd_lens::manifest::{
    check_index, default_eos_token, default_image_input, default_image_output,
    default_mask_padding, default_text_input, default_text_output, validate_manifest, ImageModel,
    Manifest, ResizeFilter, ResizeMode, TextModel, TextProjectionModel, TokenEmbeddingModel,
};
use skwd_lens::pixels::{
    check_grid, check_image_embedding, check_supported, check_text_embedding, grid_fits,
    image_view, patch_inputs, patch_mask, patches, planes, prepare_image, prepare_patches, resizable,
    RgbPixels, MAX_EDGE,
};
use skwd_lens::planning::{
    assemble, check_catalog, plan_reuse, reused_embedding, BuildRun,
};
use skwd_lens::index_writer::encode_index;
use skwd_lens::query::{make_inputs, query_inputs};
use skwd_lens::semantic_index::SemanticIndex;
use skwd_lens::tables::{table_scale, TextProjection, TokenEmbeddingTable};
use skwd_lens::tokens::{
    end_tokens, fit_tokens, prepare_query, query_mask, sentencepiece_path, tokenize,
    tokenize_if_sound, TextTokenizer,
};
use skwd_lens::{BuildEntry, ImageView};

fn member<'a>(value: &'a serde_json::Value, name: &str, default: String) -> String {
    value[name].as_str().map_or(default, str::to_owned)
}

fn triple(value: &serde_json::Value) -> [u32; 3] {
    [0, 1, 2].map(|channel| (value[channel].as_f64().unwrap() as f32).to_bits())
}

fn manifest(text: &str) -> Manifest {
    let value: serde_json::Value = serde_json::from_str(text).unwrap();
    let image = &value["image"];
    let model = &value["text"];
    Manifest {
        format: value["format"].as_u64().unwrap() as u32,
        id: member(&value, "id", String::new()),
        version: member(&value, "version", String::new()),
        dimensions: value["dimensions"].as_u64().unwrap() as usize,
        context_length: value["contextLength"].as_u64().unwrap() as usize,
        image: ImageModel {
            model: member(image, "model", String::new()),
            width: image["width"].as_u64().unwrap() as usize,
            height: image["height"].as_u64().unwrap() as usize,
            mean: triple(&image["mean"]),
            std: triple(&image["std"]),
            resize_mode: match image["resizeMode"].as_str() {
                Some("stretch") => ResizeMode::Stretch,
                Some(_) => ResizeMode::Cover,
                None => ResizeMode::default(),
            },
            resize_filter: match image["resizeFilter"].as_str() {
                Some("bilinear") => ResizeFilter::Bilinear,
                Some(_) => ResizeFilter::CatmullRom,
                None => ResizeFilter::default(),
            },
            input: member(image, "input", default_image_input()),
            output: member(image, "output", default_image_output()),
            patch_size: None,
            max_num_patches: None,
            pixel_attention_mask: None,
            spatial_shapes: None,
            supported_shapes: Vec::new(),
        },
        text: TextModel {
            model: member(model, "model", String::new()),
            tokenizer: member(model, "tokenizer", String::new()),
            input: member(model, "input", default_text_input()),
            attention_mask: model["attentionMask"].as_str().map(str::to_owned),
            mask_padding: model["maskPadding"].as_bool().unwrap_or_else(default_mask_padding),
            lowercase: model["lowercase"].as_bool().unwrap_or_default(),
            output: member(model, "output", default_text_output()),
            eos_token: model["eosToken"].as_u64().map_or_else(default_eos_token, |id| id as u32),
            pad_token: model["padToken"].as_u64().unwrap_or_default() as u32,
            token_embeddings: None,
            projection: None,
        },
    }
}

fn clip() -> Manifest {
    manifest(
        r#"{
        "format": 1,
        "id": "clip",
        "version": "1",
        "dimensions": 2,
        "contextLength": 77,
        "image": {
            "model": "image.onnx", "width": 1, "height": 1,
            "mean": [0.0, 0.0, 0.0], "std": [1.0, 1.0, 1.0]
        },
        "text": { "model": "text.onnx", "tokenizer": "tokenizer.json" }
    }"#,
    )
}

#[test]
fn manifest_defaults() {
    let clip = clip();
    assert_eq!(clip.image.input, "images");
    assert_eq!(clip.image.output, "image_embedding");
    assert!(matches!(clip.image.resize_mode, ResizeMode::Cover));
    assert!(matches!(clip.image.resize_filter, ResizeFilter::CatmullRom));
    assert_eq!(clip.text.input, "tokens");
    assert_eq!(clip.text.output, "text_embedding");
    assert_eq!(clip.text.eos_token, 49_407);
    assert!(clip.text.attention_mask.is_none());
    assert!(clip.text.mask_padding);
    assert!(!clip.text.lowercase);

    let siglip = manifest(
        r#"{
        "format": 1,
        "id": "siglip",
        "version": "1",
        "dimensions": 2,
        "contextLength": 64,
        "image": {
            "model": "image.onnx", "input": "pixel_values", "output": "embedding",
            "resizeMode": "stretch",
            "resizeFilter": "bilinear",
            "width": 1, "height": 1, "mean": [0.5, 0.5, 0.5], "std": [0.5, 0.5, 0.5]
        },
        "text": {
            "model": "text.onnx", "tokenizer": "tokenizer.json",
            "input": "input_ids", "attentionMask": "attention_mask",
            "maskPadding": false, "lowercase": true,
            "output": "embedding", "eosToken": 1, "padToken": 0
        }
    }"#,
    );
    assert_eq!(siglip.image.input, "pixel_values");
    assert!(matches!(siglip.image.resize_mode, ResizeMode::Stretch));
    assert!(matches!(siglip.image.resize_filter, ResizeFilter::Bilinear));
    assert_eq!(siglip.text.attention_mask.as_deref(), Some("attention_mask"));
    assert!(!siglip.text.mask_padding);
    assert!(siglip.text.lowercase);
    assert_eq!(siglip.text.eos_token, 1);
}

fn fault(change: impl FnOnce(&mut Manifest)) -> Option<String> {
    let mut changed = clip();
    change(&mut changed);
    validate_manifest(&changed).err().map(|failure| failure.chain())
}

#[test]
fn manifests_are_checked() {
    assert_eq!(fault(|_| {}), None);
    let cases: Vec<(Option<String>, &str)> = vec![
        (fault(|value| value.format = 2), "unsupported semantic model-pack format"),
        (fault(|value| value.id = String::from(" ")), "semantic model id is empty"),
        (fault(|value| value.version = String::new()), "semantic model version is empty"),
        (fault(|value| value.dimensions = 0), "semantic model dimensions must be positive"),
        (fault(|value| value.context_length = 1), "semantic context length must exceed one"),
        (
            fault(|value| value.image.std[2] = 0.0_f32.to_bits()),
            "semantic image standard deviations must be positive",
        ),
        (
            fault(|value| value.image.std[0] = f32::NAN.to_bits()),
            "semantic image standard deviations must be positive",
        ),
        (fault(|value| value.image.height = 0), "semantic image dimensions must be positive"),
        (
            fault(|value| value.image.patch_size = Some(16)),
            "patch image configuration is incomplete",
        ),
    ];
    for (found, expected) in cases {
        assert_eq!(found.as_deref(), Some(expected));
    }
}

fn patched(shapes: &[[usize; 2]]) -> Manifest {
    let mut manifest = clip();
    manifest.image.patch_size = Some(16);
    manifest.image.max_num_patches = Some(256);
    manifest.image.pixel_attention_mask = Some(String::from("mask"));
    manifest.image.spatial_shapes = Some(String::from("shapes"));
    manifest.image.supported_shapes = shapes.to_vec();
    manifest
}

#[test]
fn patch_manifests_are_checked() {
    let fault = |manifest: &Manifest| validate_manifest(manifest).err().map(|value| value.chain());
    assert_eq!(fault(&patched(&[[12, 21], [16, 16]])), None);
    assert_eq!(fault(&patched(&[])).as_deref(), Some("patch image shapes are empty"));
    for shape in [[0, 4], [17, 16], [usize::MAX, 2]] {
        assert_eq!(
            fault(&patched(&[[12, 21], shape])).as_deref(),
            Some("invalid supported patch image shape")
        );
    }
    let mut zero = patched(&[[1, 1]]);
    zero.image.patch_size = Some(0);
    assert_eq!(fault(&zero).as_deref(), Some("invalid patch image configuration"));
    let mut incomplete = patched(&[[1, 1]]);
    incomplete.image.spatial_shapes = None;
    assert_eq!(fault(&incomplete).as_deref(), Some("patch image inputs are incomplete"));
}

#[test]
fn indexes_belong_to_their_model() {
    let clip = clip();
    assert!(check_index("clip@1", 2, &clip).is_ok());
    assert_eq!(
        check_index("clip@2", 2, &clip).unwrap_err().chain(),
        "index uses clip@2 but model pack requires clip@1"
    );
    assert_eq!(
        check_index("clip@1", 3, &clip).unwrap_err().chain(),
        "index has 3 dimensions but model expects 2"
    );
}

fn gradient(width: u32, height: u32) -> RgbPixels {
    let mut data = Vec::new();
    for y in 0..height {
        for x in 0..width {
            data.extend_from_slice(&[x as u8, y as u8, 0]);
        }
    }
    RgbPixels { width, height, data }
}

#[test]
fn crops_image_views() {
    let source = gradient(6, 2);

    let full = image_view(source.clone(), ImageView::Full);
    let center = image_view(source.clone(), ImageView::Center);
    let left = image_view(source.clone(), ImageView::LeftThird);
    let right = image_view(source, ImageView::RightThird);

    assert_eq!((full.width, full.height), (6, 2));
    assert_eq!((center.width, center.height), (2, 2));
    assert_eq!(center.data[0], 2);
    assert_eq!((left.width, left.height), (2, 2));
    assert_eq!(left.data[0], 0);
    assert_eq!((right.width, right.height), (2, 2));
    assert_eq!(right.data[0], 4);
    assert_eq!(right.data, [4, 0, 0, 5, 0, 0, 4, 1, 0, 5, 1, 0]);
}

#[test]
fn images_are_stretched_or_covered() {
    let mut model = clip().image;
    model.width = 2;
    model.height = 2;
    model.resize_mode = ResizeMode::Stretch;
    model.resize_filter = ResizeFilter::Bilinear;
    let stretched = prepare_image(&gradient(4, 2), &model, (0, 0));
    assert_eq!((stretched.width, stretched.height), (2, 2));
    let outside = image::imageops::resize(
        &image::RgbImage::from_raw(4, 2, gradient(4, 2).data).unwrap(),
        2,
        2,
        image::imageops::FilterType::Triangle,
    );
    assert_eq!(stretched.data, outside.into_raw());

    model.resize_mode = ResizeMode::Cover;
    let covered = prepare_image(&gradient(6, 2), &model, (6, 2));
    assert_eq!(covered.data, [2, 0, 0, 3, 0, 0, 2, 1, 0, 3, 1, 0]);
}

#[test]
fn pixels_are_put_in_the_order_of_the_input() {
    assert_eq!(planes(&gradient(2, 2)), [0, 1, 0, 1, 0, 0, 1, 1, 0, 0, 0, 0]);
    let red: Vec<u8> = patches(&gradient(4, 2), 2).chunks_exact(3).map(|pixel| pixel[0]).collect();
    assert_eq!(red, [0, 1, 0, 1, 2, 3, 2, 3]);
    let same = prepare_patches(&gradient(4, 2), 2, [1, 2]);
    assert_eq!(same, gradient(4, 2));
    assert_eq!(patch_mask(2, 4), [1, 1, 0, 0]);
}

#[test]
fn patch_models_are_given_all_inputs() {
    let manifest = patched(&[[12, 21]]);
    assert_eq!(
        patch_inputs(&manifest.image).unwrap(),
        (String::from("mask"), String::from("shapes"))
    );
    assert_eq!(
        patch_inputs(&clip().image).unwrap_err().chain(),
        "patch image model is missing pixelAttentionMask"
    );
    let mut shapeless = patched(&[[12, 21]]);
    shapeless.image.spatial_shapes = None;
    assert_eq!(
        patch_inputs(&shapeless.image).unwrap_err().chain(),
        "patch image model is missing spatialShapes"
    );
    assert!(check_supported(&manifest.image, [12, 21]).is_ok());
    assert_eq!(
        check_supported(&manifest.image, [21, 12]).unwrap_err().chain(),
        "patch grid 21x12 is not supported by the model pack"
    );
    assert_eq!(check_grid(0, 1, 16, 256).unwrap_err().chain(), "patch image source is empty");
    assert_eq!(
        check_grid(1, 1, 0, 256).unwrap_err().chain(),
        "invalid patch image configuration"
    );
    assert!(check_grid(1, 1, 16, 256).is_ok());
    assert!(grid_fits(12, 21, 256) && !grid_fits(16, 17, 256) && !grid_fits(usize::MAX, 2, 256));
    assert!(check_image_embedding(2, 2).is_ok() && check_image_embedding(1, 2).is_err());
    assert!(check_text_embedding(2, 2).is_ok() && check_text_embedding(1, 2).is_err());
}

fn item(key: &str, fingerprint: u64) -> BuildEntry {
    BuildEntry { key: String::from(key), path: String::new(), fingerprint, view: ImageView::Full }
}

fn bits(values: &[f32]) -> Vec<u32> {
    values.iter().map(|value| value.to_bits()).collect()
}

#[test]
fn reuses_matching_entries() {
    let entries = vec![
        (item("same", 11), bits(&[0.25, 0.75])),
        (item("changed", 12), bits(&[0.5, 0.5])),
    ];
    let bytes = encode_index("test@1", 99, &entries, 2).unwrap();
    let index = SemanticIndex::load(&bytes).ok();

    let wanted = vec![item("same", 11), item("changed", 13), item("same", 11)];
    let plan = plan_reuse(&wanted, &index, "test@1", 2);

    assert_eq!(plan.reuse, [Some(0), None, None]);
    assert_eq!(plan.missing, 2);
    assert_eq!(reused_embedding(index.as_ref().unwrap(), 0), bits(&[0.25, 0.75]));
    assert_eq!(plan_reuse(&wanted, &index, "test@2", 2).reuse, [None, None, None]);
    assert_eq!(plan_reuse(&wanted, &index, "test@1", 3).missing, 3);
    assert_eq!(plan_reuse(&wanted, &None, "test@1", 2).missing, 3);
}

#[test]
fn the_last_of_equal_entries_is_reused() {
    let entries =
        vec![(item("same", 11), bits(&[0.25, 0.75])), (item("same", 11), bits(&[0.5, 0.5]))];
    let bytes = encode_index("test@1", 99, &entries, 2).unwrap();
    let index = SemanticIndex::load(&bytes).ok();
    assert_eq!(plan_reuse(&vec![item("same", 11)], &index, "test@1", 2).reuse, [Some(1)]);
}

#[test]
fn builds_report_their_progress() {
    let wanted: Vec<BuildEntry> = (0..9).map(|number| item(&format!("item-{number}"), 1)).collect();
    let plan = plan_reuse(&wanted, &None, "test@1", 2);
    let mut run = BuildRun::begin(&plan);
    assert_eq!(run.initial_detail(), "Encoding 9 new or changed embeddings; reusing 0");
    assert_eq!(run.progress("start").unwrap().progress, 0);
    let mut due = Vec::new();
    for number in 0..9 {
        run.record(number != 4);
        if let Some(update) = run.progress("item") {
            assert_eq!((update.total, update.detail.as_str()), (9, "item"));
            due.push(update.progress);
        }
    }
    assert_eq!(due, [8, 9]);
    assert_eq!(run.summary(8).unwrap(), "semantic index: reused 0, encoded 8, skipped 1");
    assert_eq!(
        run.summary(0).unwrap_err().chain(),
        "no semantic catalog images could be encoded"
    );
    assert_eq!(check_catalog(0).unwrap_err().chain(), "semantic catalog is empty");
    assert!(check_catalog(1).is_ok());

    let nothing = plan_reuse(&Vec::new(), &None, "test@1", 2);
    assert_eq!(BuildRun::begin(&nothing).initial_detail(), "Reusing 0 cached embeddings");
}

fn token_table() -> Vec<u8> {
    let mut bytes = Vec::from(b"SKWDTOK1".as_slice());
    bytes.extend_from_slice(&3_u32.to_le_bytes());
    bytes.extend_from_slice(&2_u32.to_le_bytes());
    bytes.extend_from_slice(&0.5_f32.to_le_bytes());
    bytes.extend_from_slice(&10_u8.to_le_bytes());
    bytes.extend_from_slice(&[0; 3]);
    bytes.extend_from_slice(&[10, 12, 20, 8, 9, 14]);
    bytes
}

fn table_model() -> TokenEmbeddingModel {
    TokenEmbeddingModel {
        table: String::from("tokens.bin"),
        input: String::from("token_embeddings"),
        rows: 3,
        dimensions: 2,
        scale: 0.5_f32.to_bits(),
        zero_point: 10,
    }
}

#[test]
fn token_table_dequantizes_rows() {
    let bytes = token_table();
    let model = table_model();
    let scale = f32::from_bits(table_scale(&bytes).unwrap());
    let matches = (scale - f32::from_bits(model.scale)).abs() <= f32::EPSILON;

    let table = TokenEmbeddingTable::load(&bytes, &model, matches).unwrap();

    let dequantized: Vec<f32> = table
        .lookup(&bytes, &[2, 0])
        .unwrap()
        .into_iter()
        .map(|value| value as f32 * scale)
        .collect();
    assert_eq!(dequantized, [-0.5, 2.0, 0.0, 1.0]);
    assert_eq!(
        table.lookup(&bytes, &[-1]).unwrap_err().chain(),
        "negative token id: out of range integral type conversion attempted"
    );
    assert_eq!(
        table.lookup(&bytes, &[3]).unwrap_err().chain(),
        "token id 3 exceeds table size"
    );
}

#[test]
fn token_tables_are_checked() {
    let bytes = token_table();
    let load = |bytes: &[u8], model: &TokenEmbeddingModel, scale: bool| {
        TokenEmbeddingTable::load(bytes, model, scale).unwrap_err().chain()
    };
    let model = table_model();
    assert_eq!(load(&bytes[..23], &model, true), "token table header is truncated");
    assert_eq!(table_scale(&bytes[..23]), None);
    let mut magic = bytes.clone();
    magic[0] = b'X';
    assert_eq!(load(&magic, &model, true), "unsupported token table");
    let rows = TokenEmbeddingModel { rows: 4, ..table_model() };
    assert_eq!(load(&bytes, &rows, true), "token table row count mismatch");
    let dimensions = TokenEmbeddingModel { dimensions: 4, ..table_model() };
    assert_eq!(load(&bytes, &dimensions, true), "token table dimensions mismatch");
    assert_eq!(load(&bytes, &model, false), "token table scale mismatch");
    let zero_point = TokenEmbeddingModel { zero_point: 4, ..table_model() };
    assert_eq!(load(&bytes, &zero_point, true), "token table zero-point mismatch");
    assert_eq!(load(&bytes[..29], &model, true), "token table length mismatch");
}

fn projection_bytes() -> Vec<u8> {
    let mut bytes = Vec::from(b"SKWDPRJ1".as_slice());
    bytes.extend_from_slice(&2_u32.to_le_bytes());
    bytes.extend_from_slice(&3_u32.to_le_bytes());
    for value in [1.0_f32, 2.0, 3.0, 4.0, 5.0, 6.0] {
        bytes.extend_from_slice(&value.to_le_bytes());
    }
    bytes
}

#[test]
fn projection_row_major_weights() {
    let bytes = projection_bytes();
    let model = TextProjectionModel {
        path: String::from("projection.bin"),
        input_dimensions: 2,
        output_dimensions: 3,
    };

    let projection = TextProjection::load(&bytes, &model).unwrap();

    let mut output = [0.0_f32; 3];
    for (row, value) in [2.0_f32, 3.0].iter().enumerate() {
        for (target, weight) in output.iter_mut().zip(projection.weights(&bytes, row)) {
            *target += value * f32::from_bits(weight);
        }
    }
    assert_eq!(output, [14.0, 19.0, 24.0]);
    assert!(projection.check_input(2).is_ok());
    assert!(projection.check_input(1).is_err());
}

#[test]
fn projections_are_checked() {
    let bytes = projection_bytes();
    let model = |input_dimensions: usize, output_dimensions: usize| TextProjectionModel {
        path: String::new(),
        input_dimensions,
        output_dimensions,
    };
    let load = |bytes: &[u8], model: &TextProjectionModel| {
        TextProjection::load(bytes, model).unwrap_err().chain()
    };
    assert_eq!(load(&bytes[..15], &model(2, 3)), "projection header is truncated");
    assert_eq!(load(&token_table(), &model(2, 3)), "unsupported text projection");
    assert_eq!(load(&bytes, &model(3, 3)), "projection input mismatch");
    assert_eq!(load(&bytes, &model(2, 2)), "projection output mismatch");
    assert_eq!(load(&bytes[..39], &model(2, 3)), "projection length mismatch");
}

const WORDS: &str = r#"{
    "version": "1.0",
    "truncation": null,
    "padding": null,
    "added_tokens": [],
    "normalizer": null,
    "pre_tokenizer": { "type": "Whitespace" },
    "post_processor": null,
    "decoder": null,
    "model": {
        "type": "WordLevel",
        "vocab": { "[UNK]": 0, "test": 1 },
        "unk_token": "[UNK]"
    }
}"#;

#[test]
fn queries_are_tokenized_to_the_context() {
    let tokenizer = TextTokenizer::load("tokenizer.json", WORDS.as_bytes(), 0).ok().unwrap();
    assert!(tokenizer.sound("test") && tokenizer.fixed());
    let (tokens, mask) = tokenize(&tokenizer, "test other test", 5, 9, 7).unwrap();
    assert_eq!(tokens, [1, 0, 1, 7, 7]);
    assert_eq!(mask, [1, 1, 1, 0, 0]);
    let (tokens, mask) =
        tokenize_if_sound(&tokenizer, "test test test", 2, 9, 7).unwrap().unwrap();
    assert_eq!(tokens, [1, 9]);
    assert_eq!(mask, [1, 1]);
}

#[test]
fn unsound_truncation_is_not_carried_out() {
    let unsound = WORDS.replace(
        r#""truncation": null"#,
        r#""truncation": {"direction":"Right","max_length":1,"strategy":"LongestFirst","stride":1}"#,
    );
    let tokenizer = TextTokenizer::load("tokenizer.json", unsound.as_bytes(), 0).ok().unwrap();
    assert!(!tokenizer.sound("test"));
    assert!(tokenize_if_sound(&tokenizer, "test test", 4, 9, 7).is_none());
    let sound = unsound.replace(r#""stride":1"#, r#""stride":0"#);
    let tokenizer = TextTokenizer::load("tokenizer.json", sound.as_bytes(), 0).ok().unwrap();
    let (tokens, mask) = tokenize(&tokenizer, "test test", 3, 9, 7).unwrap();
    assert_eq!(tokens, [1, 7, 7]);
    assert_eq!(mask, [1, 0, 0]);
}

#[test]
fn broken_tokenizers_are_refused() {
    let failure = TextTokenizer::load("a/tokenizer.json", b"{", 0).err().unwrap();
    assert_eq!(failure.message, "load semantic tokenizer a/tokenizer.json");
    assert!(failure.cause.is_some());
    let failure = TextTokenizer::load("a/spm.model", &[0xff], 0).err().unwrap();
    assert_eq!(failure.message, "load semantic tokenizer a/spm.model");
    assert!(failure.cause.is_some());
}

fn field(number: u8, bytes: &[u8]) -> Vec<u8> {
    let mut data = vec![(number << 3) | 2, bytes.len().try_into().unwrap()];
    data.extend(bytes);
    data
}

fn piece(text: &str, score: f32, kind: u8) -> Vec<u8> {
    let mut data = field(1, text.as_bytes());
    data.push((2 << 3) | 5);
    data.extend_from_slice(&score.to_le_bytes());
    data.extend_from_slice(&[3 << 3, kind]);
    field(1, &data)
}

/// A SentencePiece model of a few words: an unknown piece, the end of the text, and two words.
fn sentencepiece() -> Vec<u8> {
    let mut data = piece("<unk>", 0.0, 2);
    data.extend(piece("</s>", 0.0, 3));
    data.extend(piece("\u{2581}blue", -1.0, 1));
    data.extend(piece("\u{2581}sky", -1.0, 1));
    data
}

#[test]
fn sentencepiece_queries_end_with_the_end_token() {
    assert!(sentencepiece_path("a/spm.model"));
    assert!(!sentencepiece_path("a/.model") && !sentencepiece_path("a/model"));
    let tokenizer = TextTokenizer::load("spm.model", &sentencepiece(), 1).ok().unwrap();
    let (tokens, mask) = tokenize(&tokenizer, "blue sky", 5, 1, 0).unwrap();
    assert_eq!(tokens, [2, 3, 1, 0, 0]);
    assert_eq!(mask, [1, 1, 1, 0, 0]);
    assert_eq!(
        TextTokenizer::load("spm.model", &sentencepiece(), 2).err().unwrap().chain(),
        "semantic tokenizer EOS does not match the model pack"
    );
}

#[test]
fn tokens_are_cut_and_filled() {
    let (tokens, mask) = fit_tokens(vec![5, 6, 7], vec![1, 0, 1], 2, 9, 3);
    assert_eq!((tokens, mask), (vec![5, 9], vec![1, 1]));
    let (tokens, mask) = fit_tokens(vec![5], vec![1], 3, 9, 4);
    assert_eq!((tokens, mask), (vec![5, 4, 4], vec![1, 0, 0]));
    assert_eq!(end_tokens(&vec![4, 5], None), (vec![4, 5], vec![1, 1]));
    assert_eq!(end_tokens(&vec![4], Some(2)), (vec![4, 2], vec![1, 1]));
    assert_eq!(prepare_query("Blue SKY É", true), "blue sky é");
    assert_eq!(prepare_query("Blue SKY", false), "Blue SKY");
    assert_eq!(query_mask(vec![1, 0], true), [1, 0]);
    assert_eq!(query_mask(vec![1, 0], false), [1, 1]);
}

#[test]
fn text_models_are_given_what_they_take() {
    let mut model = clip().text;
    model.eos_token = 1;
    model.pad_token = 0;
    let plain = make_inputs(&model, 3, vec![2], vec![1], None).unwrap();
    assert_eq!(plain.tokens, [2, 0, 0]);
    assert!(plain.mask.is_none() && plain.embeddings.is_none());

    let bytes = token_table();
    let table = TokenEmbeddingTable::load(&bytes, &table_model(), true).unwrap();
    model.attention_mask = Some(String::from("attention_mask"));
    let full = make_inputs(&model, 2, vec![2], vec![1], Some((&table, bytes.as_slice()))).unwrap();
    assert_eq!(full.mask.unwrap(), [1, 0]);
    assert_eq!(full.embeddings.unwrap(), [-1, 4, 0, 2]);
    model.mask_padding = false;
    let unmasked = make_inputs(&model, 2, vec![2], vec![1], None).unwrap();
    assert_eq!(unmasked.mask.unwrap(), [1, 1]);
    assert_eq!(
        make_inputs(&model, 2, vec![7], vec![1], Some((&table, bytes.as_slice())))
            .unwrap_err()
            .chain(),
        "token id 7 exceeds table size"
    );
}

#[test]
fn queries_become_inputs() {
    let mut model = clip().text;
    model.lowercase = true;
    model.eos_token = 1;
    model.attention_mask = Some(String::from("attention_mask"));
    let tokenizer = TextTokenizer::load("spm.model", &sentencepiece(), 1).ok().unwrap();
    let inputs = query_inputs(&tokenizer, &model, 4, "BLUE sky", None).unwrap().unwrap();
    assert_eq!(inputs.tokens, [2, 3, 1, 0]);
    assert_eq!(inputs.mask.unwrap(), [1, 1, 1, 0]);

    let words = TextTokenizer::load("tokenizer.json", WORDS.as_bytes(), 0).ok().unwrap();
    let inputs = query_inputs(&words, &model, 2, "TEST", None).unwrap().unwrap();
    assert_eq!(inputs.tokens, [1, 0]);
}

#[test]
fn builds_write_entries_in_their_order() {
    let entries =
        vec![(item("old", 11), bits(&[0.25, 0.75])), (item("kept", 12), bits(&[0.5, 0.5]))];
    let bytes = encode_index("test@1", 99, &entries, 2).unwrap();
    let index = SemanticIndex::load(&bytes).ok();
    let wanted = vec![item("new", 1), item("kept", 12), item("broken", 2), item("last", 3)];
    let plan = plan_reuse(&wanted, &index, "test@1", 2);
    let made = vec![Some(bits(&[1.0, 0.0])), None, Some(bits(&[0.0, 1.0]))];

    let written = assemble(&wanted, &plan, &index, &made);

    assert_eq!(
        written,
        [
            (item("new", 1), bits(&[1.0, 0.0])),
            (item("kept", 12), bits(&[0.5, 0.5])),
            (item("last", 3), bits(&[0.0, 1.0])),
        ]
    );
}

const PAIRS: &str = r#"{
    "version": "1.0",
    "truncation": null,
    "padding": null,
    "added_tokens": [],
    "normalizer": null,
    "pre_tokenizer": { "type": "Whitespace" },
    "post_processor": {
        "type": "BertProcessing",
        "sep": ["[SEP]", 4],
        "cls": ["[CLS]", 5]
    },
    "decoder": null,
    "model": {
        "type": "BPE",
        "dropout": null,
        "unk_token": null,
        "continuing_subword_prefix": null,
        "end_of_word_suffix": null,
        "fuse_unk": false,
        "byte_fallback": false,
        "vocab": { "a": 0, "b": 1, "ab": 2, "c": 3, "[SEP]": 4, "[CLS]": 5 },
        "merges": ["a b"]
    }
}"#;

#[test]
fn chance_is_told_apart() {
    let load = |file: &str| TextTokenizer::load("tokenizer.json", file.as_bytes(), 0).ok().unwrap();
    let merged = load(PAIRS);
    assert!(merged.fixed() && merged.sound("abc"));
    let (tokens, mask) = merged.encode("abc").unwrap();
    assert_eq!((tokens, mask), (vec![5, 2, 3, 4], vec![1, 1, 1, 1]));
    assert!(!load(&PAIRS.replace(r#""dropout": null"#, r#""dropout": 0.5"#)).fixed());
    assert!(load(&PAIRS.replace(r#""dropout": null"#, r#""dropout": 0.0"#)).fixed());
    let narrow = PAIRS.replace(
        r#""truncation": null"#,
        r#""truncation": {"direction":"Right","max_length":1,"strategy":"LongestFirst","stride":0}"#,
    );
    assert!(!load(&narrow).sound("abc"));
}

#[test]
fn only_complete_images_of_some_size_are_resized() {
    let source = RgbPixels { width: 2, height: 1, data: vec![0; 6] };
    assert!(resizable(&source, 4, 4) && resizable(&source, MAX_EDGE, 1));
    assert!(!resizable(&source, MAX_EDGE + 1, 1) && !resizable(&source, 1, MAX_EDGE + 1));
    let short = RgbPixels { width: 2, height: 1, data: vec![0; 5] };
    assert!(!resizable(&short, 1, 1));
    let wide = RgbPixels { width: MAX_EDGE + 3, height: 1, data: vec![7; 3 * (MAX_EDGE as usize + 3)] };
    assert!(resizable(&wide, 2, 1));
    assert_eq!(prepare_patches(&wide, 1, [1, 2]).data, [7; 6]);
}
