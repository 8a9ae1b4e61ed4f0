use skwd_lens::bytes::{push_le, read_le};
use skwd_lens::failure::Failure;
use skwd_lens::lines::{split_lines, values_named};
use skwd_lens::path::{
    components, file_name, join_path, parent, path_order, resolve, safe_archive_path,
    safe_component, safe_relative, within, Component, PathOrder,
};
use skwd_lens::sort::{sort, Ordered};
use skwd_lens::text::{
    before, blank, characters, decimal, ends_with, from_characters, hex, hex_bytes, join,
    parse_number, same, starts_with, strip_prefix, trim, NumberError,
};

#[test]
fn pack_paths_stay_relative() {
    assert!(safe_relative("models/image.onnx"));
    assert!(safe_relative("./models/image.onnx"));
    assert!(!safe_relative("../image.onnx"));
    assert!(!safe_relative("/tmp/image.onnx"));
    assert!(safe_archive_path("model/semantic-pack.json"));
    assert!(!safe_archive_path("model/../../escape"));
}

#[test]
fn relative_paths_name_something() {
    assert!(!safe_relative(""));
    assert!(!safe_relative("."));
    assert!(safe_archive_path(""));
    assert!(safe_archive_path("."));
    assert!(!safe_archive_path("/a"));
}

#[test]
fn components_follow_the_platform() {
    for path in ["", ".", "/", "a", "./a", "a/./b", "a//b/", "/..", "//a/.", "a/..", "./.", ".hidden/x"] {
        let own: Vec<String> = components(path)
            .iter()
            .map(|component| match component {
                Component::RootDir => String::from("/"),
                Component::CurDir => String::from("."),
                Component::ParentDir => String::from(".."),
                Component::Normal(name) => name.clone(),
            })
            .collect();
        let expected: Vec<String> = std::path::Path::new(path)
            .components()
            .map(|component| component.as_os_str().to_str().unwrap().to_owned())
            .collect();
        assert_eq!(own, expected, "{path:?}");
        let directory =
            std::path::Path::new(path).parent().map(|value| value.to_str().unwrap().to_owned());
        assert_eq!(parent(path), directory, "{path:?}");
        let name =
            std::path::Path::new(path).file_name().map(|value| value.to_str().unwrap().to_owned());
        assert_eq!(file_name(path), name, "{path:?}");
    }
}

#[test]
fn joining_follows_the_platform() {
    for (root, path) in [("a", "b"), ("a/", "b"), ("", "b"), ("a", "/b"), ("a", ""), ("/", "b")] {
        let expected = std::path::Path::new(root).join(path);
        assert_eq!(join_path(root, path), expected.to_str().unwrap());
        assert_eq!(resolve(root, path), expected.to_str().unwrap());
    }
}

#[test]
fn paths_are_within_by_components() {
    assert!(within("/models/pack/a", "/models/pack"));
    assert!(within("/models/pack", "/models/pack/"));
    assert!(!within("/models/package", "/models/pack"));
    assert!(!within("/models", "/models/pack"));
}

#[test]
fn paths_are_ordered_by_components() {
    assert_eq!(path_order("/a/b", "/a-b"), PathOrder::Before);
    assert_eq!(path_order("/a-b", "/a/b"), PathOrder::After);
    assert_eq!(path_order("/a//b", "/a/b"), PathOrder::Same);
    assert!(std::path::Path::new("/a/b") < std::path::Path::new("/a-b"));
}

#[test]
fn components_are_single_names() {
    assert!(safe_component("pack-1"));
    assert!(safe_component("..."));
    for unsafe_name in ["", ".", "..", "a/b", "/a"] {
        assert!(!safe_component(unsafe_name), "{unsafe_name:?}");
    }
}

#[test]
fn numbers_are_read_like_the_standard_library_does() {
    for text in ["", "+", "-", "+7", "-7", "0", "007", "18446744073709551615", "18446744073709551616", "1x", "٣", " 1"] {
        let expected = text.parse::<usize>();
        let own = parse_number(text);
        match expected {
            Ok(number) => assert_eq!(own, Ok(number)),
            Err(error) => assert_eq!(own.unwrap_err().text(), error.to_string(), "{text:?}"),
        }
    }
    assert_eq!(parse_number(""), Err(NumberError::Empty));
    assert_eq!(parse_number("x"), Err(NumberError::InvalidDigit));
    assert_eq!(parse_number("99999999999999999999"), Err(NumberError::PosOverflow));
}

#[test]
fn white_space_is_that_of_unicode() {
    for code in 0..0x3100_u32 {
        if let Some(character) = char::from_u32(code) {
            let text = character.to_string();
            assert_eq!(blank(&text), text.trim().is_empty(), "{code}");
        }
    }
    assert_eq!(trim("\u{3000} a b \t\n"), "a b");
    assert_eq!(trim(" \n"), "");
    assert!(!blank(" a "));
}

#[test]
fn numbers_are_written_in_digits() {
    assert_eq!(decimal(0), "0");
    assert_eq!(decimal(u64::MAX), "18446744073709551615");
    assert_eq!(hex(0xbeef, 16), "000000000000beef");
    assert_eq!(hex_bytes(&[0, 0x1f, 0xff]), "001fff");
}

#[test]
fn texts_are_compared_by_their_characters() {
    assert!(same("é", "é") && !same("e", "é"));
    assert!(before("a", "ab") && before("ab", "b") && !before("b", "ab") && !before("a", "a"));
    assert!(starts_with("abc", "ab") && !starts_with("a", "ab"));
    assert!(ends_with("abc", "bc") && !ends_with("c", "bc"));
    assert_eq!(strip_prefix("libé", "lib").as_deref(), Some("é"));
    assert_eq!(strip_prefix("libé", "x"), None);
    assert_eq!(join("a", "é"), "aé");
    assert_eq!(from_characters(&characters("aé")), "aé");
}

#[test]
fn little_endian_numbers_read_back() {
    let mut bytes = Vec::new();
    push_le(&mut bytes, 0x0102_0304, 4);
    push_le(&mut bytes, u64::MAX - 1, 8);
    assert_eq!(bytes[..4], [4, 3, 2, 1]);
    assert_eq!(read_le(&bytes[..4]), 0x0102_0304);
    assert_eq!(read_le(&bytes[4..]), u64::MAX - 1);
}

#[test]
fn sorting_keeps_every_value() {
    let values: Vec<String> =
        ["pear", "apple", "fig", "apple", ""].iter().map(|text| (*text).to_owned()).collect();
    assert_eq!(sort(values), ["", "apple", "apple", "fig", "pear"]);
    assert!(Ordered::before(&String::from("a"), &String::from("b")));
}

#[test]
fn failures_are_shown_with_their_cause() {
    assert_eq!(Failure::plain("broken").chain(), "broken");
    assert_eq!(Failure::caused("broken", "worn out").chain(), "broken: worn out");
}

#[test]
fn named_values_are_found_line_by_line() {
    let status = "Rss:      1234 kB\nPss:\nPss_Dirty: 7 kB\r\nPss:\t56 kB";
    assert_eq!(values_named(status, "Rss"), ["1234"]);
    assert_eq!(values_named(status, "Pss"), ["56"]);
    assert!(values_named(status, "Swap").is_empty());
    assert_eq!(split_lines("a\r\n\nb\r"), ["a", "b\r"]);
}
