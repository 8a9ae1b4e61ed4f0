use skwd_lens::base64::read_bytes;
use skwd_lens::character_map::{characters_kept, closed_map, sized_map, trie_units};
use skwd_lens::json::{parse, Json};
use skwd_lens::pattern::nonempty_matches;
use skwd_lens::piece_model::{loadable_model, read_model_units, read_parted_pieces};
use skwd_lens::tokenizer_file::tokenizer_safe;
use skwd_lens::tokens::{
    tokenize, tokenize_if_sound, TextTokenizer, BROKEN_FILE, BROKEN_MAP, NOT_TEXT,
};

/// A character map of 512 units that replaces one key by the text at the start of the replacements.
fn character_map(key: &[u8], replacements: &[u8]) -> Vec<u8> {
    let mut units = vec![0u32; 512];
    units[0] = 256 << 10;
    units[1] = 0x8000_0000;
    let mut base: u32 = 256;
    for (position, byte) in key.iter().enumerate() {
        let at = base ^ u32::from(*byte);
        let last = position + 1 == key.len();
        base = if last { 1 } else { 256 };
        units[at as usize] = ((at ^ base) << 10) | (u32::from(last) << 8) | u32::from(*byte);
    }
    let mut map = 2048u32.to_le_bytes().to_vec();
    for unit in units {
        map.extend_from_slice(&unit.to_le_bytes());
    }
    map.extend_from_slice(replacements);
    map
}

fn base64(bytes: &[u8]) -> String {
    let alphabet: Vec<char> =
        "ABCDEFGHIJKLMNOPQRSTUVWXYZabcdefghijklmnopqrstuvwxyz0123456789+/".chars().collect();
    let mut text = String::new();
    for chunk in bytes.chunks(3) {
        let mut number: u32 = 0;
        for position in 0..3 {
            number = number * 256 + u32::from(*chunk.get(position).unwrap_or(&0));
        }
        for position in 0..4 {
            if position <= chunk.len() {
                text.push(alphabet[(number >> (18 - 6 * position)) as usize % 64]);
            } else {
                text.push('=');
            }
        }
    }
    text
}

fn file(normalizer: &str, pre_tokenizer: &str, post_processor: &str) -> String {
    format!(
        r#"{{
            "version": "1.0", "truncation": null, "padding": null, "added_tokens": [],
            "normalizer": {normalizer}, "pre_tokenizer": {pre_tokenizer},
            "post_processor": {post_processor}, "decoder": null,
            "model": {{
                "type": "WordLevel",
                "vocab": {{ "[UNK]": 0, "test": 1, "te": 2, "st": 3, "[CLS]": 4, "xtest": 5 }},
                "unk_token": "[UNK]"
            }}
        }}"#
    )
}

fn load(content: &str) -> TextTokenizer {
    TextTokenizer::load("tokenizer.json", content.as_bytes(), 0).ok().unwrap()
}

fn refused(content: &str) -> bool {
    match TextTokenizer::load("tokenizer.json", content.as_bytes(), 0) {
        Ok(_) => false,
        Err(failure) => failure.cause.as_deref() == Some(BROKEN_FILE),
    }
}

fn tokens(content: &str, query: &str) -> Vec<i64> {
    tokenize_if_sound(&load(content), query, 5, 9, 7).unwrap().unwrap().0
}

#[test]
fn base64_is_read() {
    assert!(read_bytes("").unwrap().is_empty());
    assert_eq!(read_bytes("YWJj").unwrap(), b"abc");
    assert_eq!(read_bytes("YWI=").unwrap(), b"ab");
    assert_eq!(read_bytes("YWI").unwrap(), b"ab");
    assert_eq!(read_bytes("YQ==").unwrap(), b"a");
    assert_eq!(read_bytes("YWJjYQ").unwrap(), b"abca");
    assert_eq!(read_bytes("/+8A").unwrap(), [0xff, 0xef, 0]);
    for text in ["Y", "YR==", "YWJ=", "Y===", "YQ=", "YQ==YWJj", "YW!j", "YWJjY"] {
        assert!(read_bytes(text).is_none(), "{text}");
    }
}

#[test]
fn json_keeps_every_member() {
    let Some(Json::Object(members)) = parse(r#" { "a" : 1.5e-3 , "a" : [ null, true ] } "#) else {
        panic!("no object");
    };
    assert_eq!(members.len(), 2);
    assert!(members.iter().all(|(name, _)| name == "a"));
    assert!(matches!(&members[0].1, Json::Number(digits) if digits == "1.5e-3"));
    assert!(
        matches!(&members[1].1, Json::List(items) if matches!(items[..], [Json::Null, Json::Bool(true)]))
    );
    let text = |source: &str| match parse(source) {
        Some(Json::Text(value)) => Some(value),
        _ => None,
    };
    assert_eq!(text(r#""\u0041\n\"\u00e9\ud83d\ude00/""#).unwrap(), "A\n\"é😀/");
    for source in [
        "", "nul", "01", "1.", "-", "1e", "+1", "[1,]", "{\"a\":1,}", "{a:1}", "[1 2]", "1 2",
        "\"\\x\"", "\"\\ud800\"", "\"\\udc00\"", "\"\t\"", "\"", "[", "{\"a\"}",
    ] {
        assert!(parse(source).is_none(), "{source}");
    }
    let nested = |depth: usize| "[".repeat(depth) + &"]".repeat(depth);
    assert!(parse(&nested(127)).is_some());
    assert!(parse(&nested(128)).is_none());
}

#[test]
fn patterns_that_match_nothing_are_told_apart() {
    for pattern in
        [
            "a", "\\s+", " {2,}", "[a-z]", "[^]a]+", "a|b", "(?:x|yz)", "^a", "\\p{L}\\b", "x?y",
            "\\u0041", "(?i)a", "(?i-m:a)", "(?>a)", "(?<name>a)", "(?P<name>a)\\1", "[[:alpha:]]",
            "[a&&[^b]]", "\\ha", "a\\Z",
        ]
    {
        assert!(nonempty_matches(pattern), "{pattern}");
    }
    for pattern in [
        "", "^", "\\s*", "a?", "a|", "(?=a)", "(?<!a)", "a{0,2}", "(a|b?)", "\\b", "(?x) ", "()",
        "\\1", "[a", "(a", "(?i)", "(?i:)", "(?xi)a", "(?#a)", "[[a]", "\\Z", "\\G", "(?<n>)",
    ] {
        assert!(!nonempty_matches(pattern), "{pattern}");
    }
}

#[test]
fn maps_are_checked() {
    let map = character_map(b"A", b"a\0");
    assert!(closed_map(&map) && sized_map(&map));
    assert_eq!(trie_units(&map).len(), 512);
    assert!(!closed_map(&[]) && !closed_map(&0u32.to_le_bytes()) && !closed_map(&map[..2000]));
    let mut outside = map.clone();
    outside[4..8].copy_from_slice(&(512u32 << 10).to_le_bytes());
    assert!(!closed_map(&outside));
    let mut beyond = map.clone();
    beyond[8..12].copy_from_slice(&0x8000_0003u32.to_le_bytes());
    assert!(!closed_map(&beyond));
    assert!(!closed_map(&character_map(b"A", b"\xff\0")));
    let mut inside = character_map(b"A", "é\0".as_bytes());
    assert!(closed_map(&inside));
    inside[8..12].copy_from_slice(&0x8000_0001u32.to_le_bytes());
    assert!(!closed_map(&inside));

    let split = trie_units(&character_map(b"\xc3", b"e\0"));
    assert!(!characters_kept(&split, "é".as_bytes()));
    assert!(characters_kept(&split, "e".as_bytes()));
    let whole = trie_units(&character_map("é".as_bytes(), b"e\0"));
    assert!(characters_kept(&whole, "éé".as_bytes()));
    // The longest key counts, not one within it.
    let mut both = whole.clone();
    both[256 ^ 0xc3] |= 1 << 8;
    assert!(characters_kept(&both, "é".as_bytes()) && !characters_kept(&both, "è".as_bytes()));
}

#[test]
fn closed_character_maps_normalize() {
    let normalizer = |map: &str| format!(r#"{{"type":"Precompiled","precompiled_charsmap":"{map}"}}"#);
    let map = base64(&character_map(b"T", b"t\0"));
    let good = file(&normalizer(&map), r#"{"type":"Whitespace"}"#, "null");
    assert!(tokenizer_safe(good.as_bytes()));
    assert_eq!(tokens(&good, "TesT"), [1, 7, 7, 7, 7]);
    assert!(refused(&file(&normalizer("!!!!"), "null", "null")));
    assert!(refused(&file(&normalizer("YWJj"), "null", "null")));
    assert!(refused(&file(r#"{"type":"Precompiled"}"#, "null", "null")));
    let nested = format!(r#"{{"type":"Sequence","normalizers":[{}]}}"#, normalizer(""));
    assert!(refused(&file(&nested, "null", "null")));
    // Every normalizer that is written counts, not only the last.
    let twice = good.replace(r#""version""#, r#""normalizer": {"type":"Precompiled"}, "version""#);
    assert!(refused(&twice));
}

#[test]
fn splits_need_a_length() {
    let split = |length: &str| {
        format!(
            r#"{{"type":"Sequence","pretokenizers":[{{"type":"FixedLength","length":{length}}}]}}"#
        )
    };
    assert_eq!(tokens(&file("null", &split("2"), "null"), "test"), [2, 3, 7, 7, 7]);
    assert!(refused(&file("null", &split("0"), "null")));
}

#[test]
fn what_is_put_before_a_text_stays_unchanged() {
    let replace = |pattern: &str| {
        format!(r#"{{"type":"Replace","pattern":{{"Regex":"{pattern}"}},"content":"x"}}"#)
    };
    let lower = r#"{"type":"Lowercase"}"#;
    let sequence = |first: &str, second: &str| {
        format!(r#"{{"type":"Sequence","normalizers":[{first},{second}]}}"#)
    };
    let whole = r#"{"type":"WhitespaceSplit"}"#;
    assert_eq!(tokens(&file(&sequence(lower, &replace("^")), whole, "null"), "TEST"), [5, 7, 7, 7, 7]);
    assert!(refused(&file(&sequence(&replace("^"), lower), whole, "null")));
    assert_eq!(
        tokens(&file(&sequence(&replace("q"), lower), whole, "null"), "qTest"),
        [5, 7, 7, 7, 7]
    );
    let bytes = r#"{"type":"ByteLevel","add_prefix_space":false,"trim_offsets":true}"#;
    assert!(refused(&file(&replace("^"), bytes, "null")));
    assert!(!refused(&file(&replace("q+"), bytes, "null")));
    let nothing = r#"{"type":"Prepend","prepend":""}"#;
    assert!(refused(&file(&sequence(nothing, lower), whole, "null")));
    let something = r#"{"type":"Prepend","prepend":"x"}"#;
    assert_eq!(
        tokens(&file(&sequence(something, lower), whole, "null"), "Test"),
        [5, 7, 7, 7, 7]
    );
}

#[test]
fn templates_name_what_there_is() {
    let template = |single: &str, known: &str| {
        format!(
            r#"{{"type":"TemplateProcessing","single":[{single}],"pair":[],"special_tokens":{{{known}}}}}"#
        )
    };
    let start = r#"{"SpecialToken":{"id":"[CLS]","type_id":0}}"#;
    let query = r#"{"Sequence":{"id":"A","type_id":0}}"#;
    let second = r#"{"Sequence":{"id":"B","type_id":0}}"#;
    let known = r#""[CLS]":{"id":"[CLS]","ids":[4],"tokens":["[CLS]"]}"#;
    let both = format!("{start},{query}");
    let whole = r#"{"type":"WhitespaceSplit"}"#;
    assert_eq!(tokens(&file("null", whole, &template(&both, known)), "test"), [4, 1, 7, 7, 7]);
    assert!(refused(&file("null", whole, &template(&both, ""))));
    assert!(refused(&file("null", whole, &template(second, known))));
    let hidden = r#"{"type":"Sequence","processors":[{"type":"TemplateProcessing",
        "single":[{"Sequence":{"id":"B","type_id":0}}],"pair":[],"special_tokens":{}}],
        "single":[],"special_tokens":{}}"#;
    assert!(refused(&file("null", whole, hidden)));
    let listed = r#"{"type":"Sequence","processors":[],"single":[],"special_tokens":{}}"#;
    assert_eq!(tokens(&file("null", whole, listed), "test"), [1, 7, 7, 7, 7]);
    // One that spells bytes leaves a single sequence, whatever else it has.
    let bytes = r#"{"type":"ByteLevel","add_prefix_space":true,"trim_offsets":true,
        "single":[{"Sequence":{"id":"A","type_id":0}},{"Sequence":{"id":"A","type_id":0}}],
        "special_tokens":{}}"#;
    let behind = |single: &str, pair: &str| {
        format!(
            r#"{{"type":"Sequence","processors":[{bytes},{{"type":"TemplateProcessing",
                "single":[{single}],"pair":[{pair}],"special_tokens":{{}}}}]}}"#
        )
    };
    assert!(refused(&file("null", whole, &behind(second, query))));
    assert_eq!(tokens(&file("null", whole, &behind(query, second)), "test"), [1, 7, 7, 7, 7]);
    let either = r#"{"type":"ByteLevel","single":[],"pair":[],"special_tokens":{}}"#;
    assert!(refused(&file("null", whole, either)));
    let around = r#"{"type":"BertProcessing","sep":["s",8],"cls":["c",9],"single":[]}"#;
    assert_eq!(tokens(&file("null", whole, around), "test"), [9, 1, 8, 7, 7]);
    let twice = format!(
        r#"{{"type":"Sequence","processors":[{},{}]}}"#,
        template(&format!("{both},{start}"), known),
        template(query, known)
    );
    assert!(refused(&file("null", whole, &twice)));
}

#[test]
fn matches_start_where_they_are_found() {
    let split = |pattern: &str| {
        format!(
            r#"{{"type":"Split","pattern":{{"Regex":"{pattern}"}},"behavior":"Isolated","invert":false}}"#
        )
    };
    assert_eq!(tokens(&file("null", &split("te\\\\Kst"), "null"), "test"), [2, 3, 7, 7, 7]);
    assert!(refused(&file("null", &split("(?<=\\\\Kt)e"), "null")));
}

#[test]
fn merges_stay_in_the_vocabulary() {
    let model = |vocabulary: &str, merges: &str| {
        format!(
            r#"{{"version":"1.0","truncation":null,"padding":null,"added_tokens":[],
                "normalizer":null,"pre_tokenizer":null,"post_processor":null,"decoder":null,
                "model":{{"type":"BPE","dropout":null,"unk_token":null,
                "continuing_subword_prefix":"+","end_of_word_suffix":null,"fuse_unk":false,
                "vocab":{vocabulary},"merges":{merges}}}}}"#
        )
    };
    let vocabulary = r#"{"a":0,"+b":1,"ab":2}"#;
    assert_eq!(tokens(&model(vocabulary, r#"[["a","+b"]]"#), "ab"), [2, 7, 7, 7, 7]);
    assert_eq!(tokens(&model(vocabulary, r##"["#version: 0.2","a +b"]"##), "ab"), [2, 7, 7, 7, 7]);
    assert!(refused(&model(r#"{"a":0,"+b":1}"#, r#"["a +b"]"#)));
    assert!(refused(&model(vocabulary, r#"["a +c"]"#)));
    assert!(refused(&model(vocabulary, r#"["a  +b"]"#)));
    assert!(refused(&model(vocabulary, r#"["ab a"]"#)));
}

#[test]
fn malformed_files_are_not_tried() {
    let good = file("null", "null", "null");
    assert!(refused(&good.replace(r#""decoder": null"#, r#""decoder": {"#)));
    let decoder = |stop: &str| {
        let decoder = format!(r#""decoder": {{"type":"Strip","content":" ","start":0,"stop":{stop}}}"#);
        good.replace(r#""decoder": null"#, &decoder)
    };
    assert!(refused(&decoder("1e999")) && refused(&decoder("1E+100")));
    assert!(!refused(&decoder("1e99")) && !refused(&decoder("1e+99")) && !refused(&decoder("1e-999")));
    assert_eq!(tokens(&decoder("0"), "test"), [1, 7, 7, 7, 7]);
    assert!(refused("[]"));
    let failure = TextTokenizer::load("tokenizer.json", b"\xff", 0).err().unwrap();
    assert_eq!(failure.cause.as_deref(), Some(NOT_TEXT));
    // What is well-formed but no tokenizer is refused by the tokenizer itself.
    assert!(tokenizer_safe(b"{}") && !refused("{}"));
    assert!(TextTokenizer::load("tokenizer.json", b"{}", 0).is_err());
}

fn added(id: u32, content: &str, normalized: bool, lstrip: bool, rstrip: bool) -> String {
    format!(
        r#"{{"id":{id},"content":"{content}","single_word":false,"lstrip":{lstrip},
            "rstrip":{rstrip},"normalized":{normalized},"special":false}}"#
    )
}

#[test]
fn added_tokens_can_be_found() {
    let with = |normalizer: &str, tokens: &str| {
        file(normalizer, r#"{"type":"WhitespaceSplit"}"#, "null")
            .replace(r#""added_tokens": []"#, &format!(r#""added_tokens": [{tokens}]"#))
    };
    let taking = added(6, "<m>", false, false, true);
    let blank = added(7, " ", false, true, false);
    let plain = load(&with("null", &taking));
    assert!(plain.sound("test") && plain.fixed());
    assert_eq!(tokens(&with("null", &taking), "<m>  test"), [6, 1, 7, 7, 7]);
    let overlapping = load(&with("null", &format!("{taking},{blank}")));
    assert!(overlapping.sound("test") && overlapping.sound("te st") && overlapping.sound("<m>test"));
    assert!(!overlapping.sound("<m> test"));
    assert!(tokenize_if_sound(&overlapping, "<m>   test", 4, 9, 7).is_none());

    let strip = r#"{"type":"Strip","strip_left":true,"strip_right":true}"#;
    assert!(!load(&with(strip, &added(6, " ", true, false, false))).sound("é"));
    assert!(load(&with("null", &added(6, " ", true, false, false))).sound("é"));

    let lower = r#"{"type":"Lowercase"}"#;
    let both = format!("{},{}", added(6, "Q", true, false, false), added(7, "q", true, false, false));
    assert!(!load(&with(lower, &both)).fixed());
    assert!(load(&with("null", &both)).fixed());
}

#[test]
fn padding_stays_within_bounds() {
    let padded = |strategy: &str, multiple: &str| {
        file("null", r#"{"type":"WhitespaceSplit"}"#, "null").replace(
            r#""padding": null"#,
            &format!(
                r#""padding": {{"strategy":{strategy},"direction":"Right",
                    "pad_to_multiple_of":{multiple},"pad_id":8,"pad_type_id":0,"pad_token":"p"}}"#
            ),
        )
    };
    assert_eq!(tokens(&padded(r#"{"Fixed":2}"#, "null"), "test"), [1, 8, 7, 7, 7]);
    assert_eq!(tokens(&padded(r#""BatchLongest""#, "3"), "test"), [1, 8, 8, 7, 7]);
    assert!(!load(&padded(r#"{"Fixed":18446744073709551615}"#, "null")).sound("test"));
    assert!(!load(&padded(r#""BatchLongest""#, "18446744073709551615")).sound("test"));
}

fn message(number: u8, bytes: &[u8]) -> Vec<u8> {
    let mut data = vec![(number << 3) | 2];
    let mut length = bytes.len();
    while length >= 128 {
        data.push((length % 128 + 128) as u8);
        length /= 128;
    }
    data.push(length as u8);
    data.extend_from_slice(bytes);
    data
}

fn piece(text: &str, score: f32, kind: u8) -> Vec<u8> {
    let mut data = message(1, text.as_bytes());
    data.push((2 << 3) | 5);
    data.extend_from_slice(&score.to_le_bytes());
    data.extend_from_slice(&[3 << 3, kind]);
    message(1, &data)
}

fn pieces() -> Vec<u8> {
    let mut data = piece("<unk>", 0.0, 2);
    data.extend(piece("</s>", 0.0, 3));
    data.extend(piece("\u{2581}blue", -1.0, 1));
    data.extend(piece("\u{2581}sky", -1.0, 1));
    data
}

#[test]
fn character_maps_of_models_keep_characters() {
    let mut mapped = pieces();
    mapped.extend(message(3, &message(2, &character_map(b"B", b"b\0"))));
    assert!(loadable_model(&mapped));
    assert_eq!(read_model_units(&mapped).len(), 512);
    let tokenizer = TextTokenizer::load("spm.model", &mapped, 1).ok().unwrap();
    assert!(tokenizer.sound("Blué"));
    assert_eq!(tokenize(&tokenizer, "Blue sky", 4, 1, 0).unwrap().0, [2, 3, 1, 0]);

    let mut splitting = pieces();
    splitting.extend(message(3, &message(2, &character_map(b"\xc3", b"e\0"))));
    let tokenizer = TextTokenizer::load("spm.model", &splitting, 1).ok().unwrap();
    assert!(!tokenizer.sound("é") && tokenizer.sound("blue"));
    assert!(tokenize_if_sound(&tokenizer, "é", 4, 1, 0).is_none());
    assert_eq!(tokenize(&tokenizer, "blue sky", 4, 1, 0).unwrap().0, [2, 3, 1, 0]);

    for number in [3, 5] {
        let mut broken = pieces();
        let mut map = 1024u32.to_le_bytes().to_vec();
        map.resize(1026, 0);
        broken.extend(message(number, &message(2, &map)));
        assert!(!loadable_model(&broken));
        let failure = TextTokenizer::load("spm.model", &broken, 1).err().unwrap();
        assert_eq!(failure.cause.as_deref(), Some(BROKEN_MAP));
    }
}

#[test]
fn joined_pieces_are_not_taken_apart() {
    let mut joined = pieces();
    joined.extend(piece("ky", -1.0, 5));
    assert!(read_parted_pieces(&joined).is_empty());
    joined.extend(message(2, &[3 << 3, 2]));
    assert_eq!(read_parted_pieces(&joined), [b"ky"]);
    let tokenizer = TextTokenizer::load("spm.model", &joined, 1).ok().unwrap();
    assert!(tokenizer.sound("blue") && !tokenizer.sound("sky"));
    assert!(tokenize_if_sound(&tokenizer, "sky", 4, 1, 0).is_none());
    assert!(tokenize_if_sound(&tokenizer, "blue", 4, 1, 0).unwrap().is_ok());

    // What counts is the text after normalizing.
    joined.extend(message(3, &message(2, &character_map(b"K", b"ky\0"))));
    let tokenizer = TextTokenizer::load("spm.model", &joined, 1).ok().unwrap();
    assert!(tokenizer.sound("s") && !tokenizer.sound("sK"));
}
