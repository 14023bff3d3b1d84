use litweb::{
    determine_filetype_and_dest, ensure_input_is_newer, FileType, ModTime, TangleOrWeave,
};

#[test]
fn literate_input_maps_to_rust_module_for_tangle() {
    let r = determine_filetype_and_dest("foo.lit.djot", TangleOrWeave::Tangle).unwrap();
    assert_eq!(r.0, FileType::SourceDjot);
    assert_eq!(r.1, "foo.rs");
    assert_eq!(r.2, FileType::GeneratedRustModule);
}

#[test]
fn literate_input_keeps_its_directory() {
    let r = determine_filetype_and_dest("src/deep/foo.lit.djot", TangleOrWeave::Tangle).unwrap();
    assert_eq!(r.1, "src/deep/foo.rs");
}

#[test]
fn rust_module_maps_back_to_literate_for_tangle() {
    let r = determine_filetype_and_dest("foo.rs", TangleOrWeave::Tangle).unwrap();
    assert_eq!(r.0, FileType::GeneratedRustModule);
    assert_eq!(r.1, "foo.lit.djot");
    assert_eq!(r.2, FileType::SourceDjot);
}

#[test]
fn literate_input_maps_to_markdown_for_weave() {
    let r = determine_filetype_and_dest("foo.lit.djot", TangleOrWeave::Weave).unwrap();
    assert_eq!(r.0, FileType::SourceDjot);
    assert_eq!(r.1, "foo.md");
    assert_eq!(r.2, FileType::GeneratedMarkdown);
}

#[test]
fn markdown_maps_back_to_literate_for_weave_only() {
    let r = determine_filetype_and_dest("foo.md", TangleOrWeave::Weave).unwrap();
    assert_eq!(r.1, "foo.lit.djot");
    assert!(determine_filetype_and_dest("foo.md", TangleOrWeave::Tangle).is_none());
}

#[test]
fn unrecognized_names_are_refused() {
    assert!(determine_filetype_and_dest("foo.txt", TangleOrWeave::Tangle).is_none());
    assert!(determine_filetype_and_dest("foo.djot", TangleOrWeave::Tangle).is_none());
    assert!(determine_filetype_and_dest(".lit.djot", TangleOrWeave::Tangle).is_none());
    assert!(determine_filetype_and_dest(".rs", TangleOrWeave::Tangle).is_none());
    assert!(determine_filetype_and_dest("dir/.rs", TangleOrWeave::Tangle).is_none());
}

#[test]
fn freshness_gate_is_idempotent_after_stamping() {
    let t = ModTime { secs: 100, nanos: 5 };
    assert_eq!(ensure_input_is_newer(t, Some(t), false), None);
}

#[test]
fn freshness_gate_lets_newer_input_through() {
    let older = ModTime { secs: 100, nanos: 5 };
    let newer = ModTime { secs: 100, nanos: 6 };
    assert_eq!(ensure_input_is_newer(newer, Some(older), false), Some(newer));
    assert_eq!(ensure_input_is_newer(older, Some(newer), false), None);
}

#[test]
fn missing_output_always_proceeds() {
    let t = ModTime { secs: 7, nanos: 0 };
    assert_eq!(ensure_input_is_newer(t, None, false), Some(t));
}

#[test]
fn force_flag_bypasses_the_gate() {
    let older = ModTime { secs: 1, nanos: 0 };
    let newer = ModTime { secs: 2, nanos: 0 };
    assert_eq!(ensure_input_is_newer(older, Some(newer), true), Some(older));
}

#[test]
fn full_pipeline_round_trip_on_code_only_document() {
    let source = "```rust\nfn main() {}\n```\n";
    let blocks = litweb::tangle::analyze_source_blocks(source).unwrap();
    let groups = litweb::tangle::convert_source_blocks(blocks).unwrap();
    let generated = litweb::tangle::generate_output(groups);
    assert_eq!(generated, "fn main() {}\n\n// [LITWEB djot->rust]\n");
    let mut gen_lines: Vec<String> = Vec::new();
    for l in generated.lines() {
        gen_lines.push(l.to_string());
    }
    let groups2 = litweb::untangle::analyze_line_groups(gen_lines).unwrap();
    let blocks2 = litweb::untangle::convert_line_groups(
        groups2,
        litweb::tangle_and_untangle::GeneratedLanguage::Rust,
    )
    .unwrap();
    let doc = litweb::untangle::generate_output(blocks2);
    assert_eq!(doc, "``` rust\nfn main() {}\n```\n");
}

#[test]
fn full_pipeline_tangle_document_with_prose_and_code() {
    let source = "Hello\n\n```rust\nfn main() {}\n```\n";
    let blocks = litweb::tangle::analyze_source_blocks(source).unwrap();
    let groups = litweb::tangle::convert_source_blocks(blocks).unwrap();
    let generated = litweb::tangle::generate_output(groups);
    assert_eq!(
        generated,
        "// Hello\n\n// \n\nfn main() {}\n\n// [LITWEB djot->rust]\n"
    );
}
