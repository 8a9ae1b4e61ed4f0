use skwd_lens::manifest::{ImageModel, Manifest, ResizeFilter, ResizeMode, TextModel};
use skwd_lens::onnx::{external_files, Message};
use skwd_lens::pack::removal::{
    graph_externals, model_files, removable_files, RemovalStep, StagedRemoval,
};
use skwd_lens::pack::report::removal_report;
use skwd_lens::path::join_path;

fn model() -> Manifest {
    Manifest {
        format: 1,
        id: String::from("test"),
        version: String::from("v1"),
        dimensions: 4,
        context_length: 4,
        image: ImageModel {
            model: String::from("image.onnx"),
            width: 1,
            height: 1,
            mean: [0; 3],
            std: [1.0_f32.to_bits(); 3],
            resize_mode: ResizeMode::Cover,
            resize_filter: ResizeFilter::CatmullRom,
            input: String::from("images"),
            output: String::from("image_embedding"),
            patch_size: None,
            max_num_patches: None,
            pixel_attention_mask: None,
            spatial_shapes: None,
            supported_shapes: Vec::new(),
        },
        text: TextModel {
            model: String::from("text.onnx"),
            tokenizer: String::from("tokenizer.json"),
            input: String::from("tokens"),
            attention_mask: None,
            mask_padding: true,
            lowercase: false,
            output: String::from("text_embedding"),
            eos_token: 0,
            pad_token: 0,
            token_embeddings: None,
            projection: None,
        },
    }
}

fn field(number: u8, bytes: &[u8]) -> Vec<u8> {
    let mut data = vec![(number << 3) | 2, bytes.len().try_into().unwrap()];
    data.extend(bytes);
    data
}

fn external_graph(location: &str) -> Vec<u8> {
    let mut entry = field(1, b"location");
    entry.extend(field(2, location.as_bytes()));
    field(7, &field(5, &field(13, &entry)))
}

/// The files of a model at a root, with the external tensors of its image graph.
fn files_at(root: &str, image: &[u8], text: &[u8]) -> Vec<String> {
    let manifest = model();
    let mut paths = model_files(&manifest);
    paths.extend(graph_externals(&manifest.image.model, image).unwrap());
    paths.extend(graph_externals(&manifest.text.model, text).unwrap());
    paths.iter().map(|path| join_path(root, path)).collect()
}

#[test]
fn default_removal_preserves_runtime_tags_imported_models_and_unrelated_files() {
    let own = files_at("/model", &external_graph("weights.bin"), &[8, 9]);
    let removed = removable_files(&own, &Vec::new(), "/model/semantic-pack.json");
    assert_eq!(
        removed,
        [
            "/model/image.onnx",
            "/model/semantic-pack.json",
            "/model/text.onnx",
            "/model/tokenizer.json",
            "/model/weights.bin"
        ]
    );
    for keep in [
        "runtime/libonnxruntime.so",
        "autotag-pack.json",
        "tags.db",
        "packs/other/semantic-pack.json",
        "notes.txt",
    ] {
        assert!(!removed.contains(&join_path("/model", keep)));
    }
    let report = removal_report(String::from("/model/semantic-pack.json"), removed.len());
    assert!(report.removed);
    assert_eq!((report.operation.as_str(), report.files), ("remove", 5));
}

#[test]
fn manual_manifest_removal_preserves_files_shared_by_another_model() {
    let files = files_at("/model", &[8, 9], &[8, 9]);
    let first = removable_files(&files, &files, "/model/manual.json");
    assert_eq!(first, ["/model/manual.json"]);
    let second = removable_files(&files, &Vec::new(), "/model/semantic-pack.json");
    assert!(second.contains(&String::from("/model/image.onnx")));
    assert_eq!(second.len(), 4);
}

#[test]
fn external_tensor_traversal_fails_before_removing_any_model_files() {
    let failure = graph_externals("image.onnx", &external_graph("../outside")).unwrap_err();
    assert!(failure.chain().contains("escapes"));
}

#[test]
fn malformed_onnx_fails_before_removal() {
    assert_eq!(
        graph_externals("image.onnx", &[58, 100, 0]).unwrap_err().chain(),
        "truncated ONNX field"
    );
}

#[test]
fn external_tensors_stand_beside_their_graph() {
    assert_eq!(
        graph_externals("graphs/image.onnx", &external_graph("weights.bin")).unwrap(),
        ["graphs/weights.bin"]
    );
    assert!(graph_externals("image.onnx", &[]).unwrap().is_empty());
}

#[test]
fn broken_messages_are_told_apart() {
    let fault = |bytes: &[u8]| external_files(bytes, Message::Model, 0).unwrap_err().chain();
    assert_eq!(fault(&[0x80]), "truncated ONNX field");
    assert_eq!(fault(&[0, 0]), "invalid ONNX field");
    assert_eq!(fault(&[8 | 3]), "unsupported ONNX wire type");
    assert_eq!(fault(&[0xff; 11]), "invalid ONNX integer");
    let lonely = field(7, &field(5, &field(13, &field(1, b"location"))));
    assert_eq!(fault(&lonely), "ONNX external tensor has no location");
    let unreadable = field(7, &field(5, &field(13, &field(2, &[0xff]))));
    assert_eq!(fault(&unreadable), "invalid utf-8 sequence of 1 bytes from index 0");
    assert_eq!(
        external_files(&[], Message::Graph, 64).unwrap_err().chain(),
        "ONNX graph nesting exceeds limit"
    );
}

#[test]
fn fixed_size_fields_are_passed_over() {
    let mut bytes = vec![8, 0x96, 0x01, 0x11];
    bytes.extend_from_slice(&[0; 8]);
    bytes.push(0x1d);
    bytes.extend_from_slice(&[0; 4]);
    bytes.extend(external_graph("weights.bin"));
    assert_eq!(external_files(&bytes, Message::Model, 0).unwrap(), ["weights.bin"]);
}

#[test]
fn graphs_may_nest_up_to_the_limit() {
    let nested = |levels: usize| {
        let mut bytes = Vec::new();
        for _ in 0..levels {
            let mut attribute = vec![(6 << 3) | 2];
            let mut length = bytes.len();
            while length > 127 {
                attribute.push((length % 128) as u8 | 128);
                length /= 128;
            }
            attribute.push(length as u8);
            attribute.extend_from_slice(&bytes);
            bytes = attribute;
        }
        bytes
    };
    assert!(external_files(&nested(1), Message::Attribute, 62).is_ok());
    assert!(external_files(&nested(1), Message::Attribute, 63).is_err());
}

#[test]
fn failed_file_removal_restores_already_staged_files() {
    let mut removal = StagedRemoval::begin(4);
    let mut place = [true; 4];
    let mut staged = 0;
    loop {
        match removal.next() {
            RemovalStep::Stage { position } => {
                let moved = staged != 2;
                if moved {
                    place[position] = false;
                    staged += 1;
                }
                removal.staged(moved);
            }
            RemovalStep::Restore { position } => {
                place[position] = true;
                removal.restored();
            }
            RemovalStep::GiveUp { position } => {
                assert_eq!(position, 2);
                break;
            }
            RemovalStep::Finish => panic!("a file could not be moved"),
        }
    }
    assert_eq!(staged, 2);
    assert_eq!(place, [true; 4]);
}

#[test]
fn complete_removal_moves_every_file() {
    let mut removal = StagedRemoval::begin(2);
    removal.staged(true);
    assert_eq!(removal.next(), RemovalStep::Stage { position: 1 });
    removal.staged(true);
    assert_eq!(removal.next(), RemovalStep::Finish);
}
