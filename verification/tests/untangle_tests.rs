use litweb::tangle_and_untangle::{
    AnalysisError, ConversionError, GeneratedLanguage, GeneratedLineGroup, SourceLanguage,
    SourceToplevelBlock,
};
use litweb::untangle::{
    analyze_line_groups, calc_djot_fences, convert_line_groups, drop_trailing_empty_lines,
    generate_output, take_postamble,
};

const MARKER: &str = "// [LITWEB djot->rust]";

fn lines(v: &[&str]) -> Vec<String> {
    let mut r = Vec::new();
    for s in v {
        r.push((*s).to_string());
    }
    r
}

#[test]
fn drop_trailing_empty_lines_drops_only_trailing() {
    let mut l = lines(&["a", "", "b", "", ""]);
    drop_trailing_empty_lines(&mut l);
    assert_eq!(l, lines(&["a", "", "b"]));
}

#[test]
fn take_postamble_removes_marker_and_padding() {
    let mut l = lines(&["fn main() {}", "", MARKER, ""]);
    let post = take_postamble(&mut l);
    assert!(matches!(
        post,
        Some(GeneratedLineGroup::Postamble { source_lang: SourceLanguage::Djot })
    ));
    assert_eq!(l, lines(&["fn main() {}"]));
}

#[test]
fn take_postamble_trims_the_marker_line_only() {
    let mut l = lines(&["code", &format!("  {}  ", MARKER)]);
    let post = take_postamble(&mut l);
    assert!(post.is_some());
    assert_eq!(l, lines(&["code"]));
}

#[test]
fn take_postamble_refuses_other_last_line() {
    let mut l = lines(&["fn main() {}"]);
    assert!(take_postamble(&mut l).is_none());
    assert_eq!(l, lines(&["fn main() {}"]));
}

#[test]
fn analyze_refuses_input_without_marker() {
    let r = analyze_line_groups(lines(&["fn main() {}", ""]));
    assert!(matches!(r, Err(AnalysisError::NoValidPostamble)));
}

#[test]
fn analyze_wraps_all_content_in_one_group() {
    let groups = analyze_line_groups(lines(&["a", "", "b", "", MARKER])).unwrap();
    assert_eq!(groups.len(), 3);
    assert!(matches!(groups[0], GeneratedLineGroup::Preamble));
    match &groups[1] {
        GeneratedLineGroup::CodeLineGroup(l) => assert_eq!(l, &lines(&["a", "", "b"])),
        _ => panic!("expected one code line group"),
    }
    assert!(matches!(groups[2], GeneratedLineGroup::Postamble { .. }));
}

#[test]
fn convert_requires_leading_preamble() {
    let r = convert_line_groups(vec![], GeneratedLanguage::Rust);
    assert!(matches!(r, Err(ConversionError::NoValidPreamble)));
    let r = convert_line_groups(
        vec![GeneratedLineGroup::CodeLineGroup(lines(&["x"]))],
        GeneratedLanguage::Rust,
    );
    assert!(matches!(r, Err(ConversionError::NoValidPreamble)));
}

#[test]
fn convert_requires_trailing_postamble() {
    let r = convert_line_groups(vec![GeneratedLineGroup::Preamble], GeneratedLanguage::Rust);
    assert!(matches!(r, Err(ConversionError::NoValidPostamble)));
}

#[test]
fn convert_refuses_stray_group_in_the_middle() {
    let r = convert_line_groups(
        vec![
            GeneratedLineGroup::Preamble,
            GeneratedLineGroup::Preamble,
            GeneratedLineGroup::Postamble { source_lang: SourceLanguage::Djot },
        ],
        GeneratedLanguage::Rust,
    );
    assert!(matches!(r, Err(ConversionError::UnexpectedGeneratedLineGroup)));
}

#[test]
fn convert_maps_code_groups_to_verbatim_blocks() {
    let blocks = convert_line_groups(
        vec![
            GeneratedLineGroup::Preamble,
            GeneratedLineGroup::CodeLineGroup(lines(&["a", "b"])),
            GeneratedLineGroup::Postamble { source_lang: SourceLanguage::Djot },
        ],
        GeneratedLanguage::Rust,
    )
    .unwrap();
    assert_eq!(blocks.len(), 3);
    match &blocks[1] {
        SourceToplevelBlock::VerbatimBlock { lang: GeneratedLanguage::Rust, lines: l } => {
            assert_eq!(l, &lines(&["a", "b"]));
        },
        _ => panic!("expected a verbatim block"),
    }
}

#[test]
fn fence_is_three_backticks_for_plain_code() {
    let (start, end) = calc_djot_fences(GeneratedLanguage::Rust, &lines(&["let x = 1;"]));
    assert_eq!(end, "```");
    assert_eq!(start, "``` rust");
}

#[test]
fn fence_grows_past_backtick_lines() {
    let (start, end) = calc_djot_fences(GeneratedLanguage::Rust, &lines(&["```", "a"]));
    assert_eq!(end, "````");
    assert_eq!(start, "```` rust");
    let (_, end) = calc_djot_fences(GeneratedLanguage::Rust, &lines(&["``````"]));
    assert_eq!(end, "```````");
}

#[test]
fn short_backtick_lines_leave_the_fence_at_three() {
    let (_, end) = calc_djot_fences(GeneratedLanguage::Rust, &lines(&["``"]));
    assert_eq!(end, "```");
}

#[test]
fn untangle_generates_fenced_document() {
    let blocks = vec![
        SourceToplevelBlock::Preamble { lang: SourceLanguage::Djot },
        SourceToplevelBlock::VerbatimBlock {
            lang: GeneratedLanguage::Rust,
            lines: lines(&["fn main() {}"]),
        },
        SourceToplevelBlock::Postamble,
    ];
    assert_eq!(generate_output(blocks), "``` rust\nfn main() {}\n```\n");
}

#[test]
fn untangle_separates_blocks_with_one_blank_line() {
    let blocks = vec![
        SourceToplevelBlock::Preamble { lang: SourceLanguage::Djot },
        SourceToplevelBlock::LiterateBlock { lines: lines(&["intro"]) },
        SourceToplevelBlock::VerbatimBlock { lang: GeneratedLanguage::Rust, lines: lines(&["x"]) },
        SourceToplevelBlock::Postamble,
    ];
    assert_eq!(generate_output(blocks), "intro\n\n``` rust\nx\n```\n");
}

#[test]
fn untangle_of_tangled_output_recovers_code() {
    let generated = lines(&["fn main() {}", "", MARKER]);
    let groups = analyze_line_groups(generated).unwrap();
    let blocks = convert_line_groups(groups, GeneratedLanguage::Rust).unwrap();
    assert_eq!(generate_output(blocks), "``` rust\nfn main() {}\n```\n");
}
