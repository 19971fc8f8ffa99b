use installer::text::{chars_of, read_output, text_contains, text_eq, text_le};

const SAMPLES: [&str; 14] = [
    "",
    "a",
    "a.yaml",
    "a.yaml.bak",
    "b.yaml",
    "B.yaml",
    "ab",
    "abc",
    "b",
    "namespace.yaml",
    "z",
    "\u{e9}",
    "\u{e9}t\u{e9}",
    "\u{10348}",
];

#[test]
fn text_le_orders_the_example_paths() {
    assert!(text_le("a.yaml", "b.yaml"));
    assert!(!text_le("b.yaml", "a.yaml"));
}

#[test]
fn text_le_puts_a_prefix_first() {
    assert!(text_le("a.yaml", "a.yaml.bak"));
    assert!(!text_le("a.yaml.bak", "a.yaml"));
    assert!(text_le("", "a"));
    assert!(!text_le("a", ""));
}

#[test]
fn text_le_holds_of_equal_texts() {
    assert!(text_le("", ""));
    assert!(text_le("deploy.yaml", "deploy.yaml"));
}

#[test]
fn text_le_puts_upper_case_before_lower_case() {
    assert!(text_le("B.yaml", "a.yaml"));
    assert!(!text_le("a.yaml", "B.yaml"));
}

#[test]
fn text_le_agrees_with_the_order_of_strings() {
    for a in SAMPLES {
        for b in SAMPLES {
            assert_eq!(text_le(a, b), a <= b, "{:?} <= {:?}", a, b);
        }
    }
}

#[test]
fn text_le_is_total_and_transitive_on_samples() {
    for a in SAMPLES {
        for b in SAMPLES {
            assert!(text_le(a, b) || text_le(b, a));
            for c in SAMPLES {
                if text_le(a, b) && text_le(b, c) {
                    assert!(text_le(a, c));
                }
            }
        }
    }
}

#[test]
fn text_eq_tells_texts_apart() {
    assert!(text_eq("blob", "blob"));
    assert!(!text_eq("blob", "tree"));
    assert!(!text_eq("blob", "blobs"));
    assert!(!text_eq("blobs", "blob"));
    assert!(!text_eq("blob", "Blob"));
    assert!(text_eq("", ""));
    assert!(!text_eq("", "x"));
    for a in SAMPLES {
        for b in SAMPLES {
            assert_eq!(text_eq(a, b), a == b);
        }
    }
}

#[test]
fn text_contains_finds_the_mark_anywhere() {
    assert!(text_contains("namespace", "namespace"));
    assert!(text_contains("00-namespace.yaml", "namespace"));
    assert!(text_contains("dir/my-namespaces", "namespace"));
    assert!(text_contains("nanamespace", "namespace"));
    assert!(text_contains("namespacnamespace", "namespace"));
}

#[test]
fn text_contains_rejects_what_is_not_there() {
    assert!(!text_contains("", "namespace"));
    assert!(!text_contains("namespac", "namespace"));
    assert!(!text_contains("name-space.yaml", "namespace"));
    assert!(!text_contains("Namespace.yaml", "namespace"));
    assert!(!text_contains("amespacen", "namespace"));
}

#[test]
fn text_contains_finds_the_empty_text_everywhere() {
    assert!(text_contains("", ""));
    assert!(text_contains("abc", ""));
}

#[test]
fn text_contains_agrees_with_str_contains() {
    for hay in SAMPLES {
        for needle in SAMPLES {
            let expected = hay.contains(needle);
            assert_eq!(text_contains(hay, needle), expected, "{:?} in {:?}", needle, hay);
        }
    }
}

#[test]
fn chars_of_gives_every_character_in_order() {
    assert_eq!(chars_of(""), Vec::<char>::new());
    assert_eq!(chars_of("a.b"), vec!['a', '.', 'b']);
    assert_eq!(chars_of("\u{e9}t\u{10348}"), vec!['\u{e9}', 't', '\u{10348}']);
}

#[test]
fn read_output_keeps_valid_text() {
    assert_eq!(read_output(&Vec::new()), "");
    assert_eq!(read_output(&b"ok".to_vec()), "ok");
    assert_eq!(read_output(&b"NAME READY\n".to_vec()), "NAME READY\n");
    assert_eq!(read_output(&"caf\u{e9} \u{10348}".as_bytes().to_vec()), "caf\u{e9} \u{10348}");
    for sample in SAMPLES {
        assert_eq!(read_output(&sample.as_bytes().to_vec()), sample);
    }
}

#[test]
fn read_output_marks_what_is_no_text() {
    assert_eq!(read_output(&vec![0xff]), "\u{fffd}");
    assert_eq!(read_output(&vec![b'a', 0x80, b'b']), "a\u{fffd}b");
    assert_eq!(read_output(&vec![0xc3]), "\u{fffd}");
    assert_eq!(read_output(&vec![0xed, 0xa0, 0x80, b'x']), "\u{fffd}\u{fffd}\u{fffd}x");
}
