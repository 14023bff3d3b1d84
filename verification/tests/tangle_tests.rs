use litweb::tangle::{
    analyze_source_blocks, convert_source_blocks, generate_output, pull_next_top_level_block,
    union_range, ContainerKind, EventClass, MarkupEvent,
};
use litweb::tangle_and_untangle::{
    GeneratedLanguage, GeneratedLineGroup, SourceLanguage, SourceToplevelBlock,
};

const MARKER: &str = "// [LITWEB djot->rust]";

fn lines(v: &[&str]) -> Vec<String> {
    let mut r = Vec::new();
    for s in v {
        r.push((*s).to_string());
    }
    r
}

#[test]
fn tangle_example_document() {
    let blocks = vec![
        SourceToplevelBlock::Preamble { lang: SourceLanguage::Djot },
        SourceToplevelBlock::LiterateBlock { lines: lines(&["Hello"]) },
        SourceToplevelBlock::VerbatimBlock {
            lang: GeneratedLanguage::Rust,
            lines: lines(&["fn main() {}"]),
        },
        SourceToplevelBlock::Postamble,
    ];
    let groups = convert_source_blocks(blocks).unwrap();
    let out = generate_output(groups);
    assert_eq!(out, format!("// Hello\n\nfn main() {{}}\n\n{}\n", MARKER));
}

#[test]
fn tangle_output_ends_with_marker() {
    let blocks = vec![
        SourceToplevelBlock::Preamble { lang: SourceLanguage::Djot },
        SourceToplevelBlock::VerbatimBlock {
            lang: GeneratedLanguage::Rust,
            lines: lines(&["let x = 1;"]),
        },
        SourceToplevelBlock::Postamble,
    ];
    let groups = convert_source_blocks(blocks).unwrap();
    let out = generate_output(groups);
    assert!(out.ends_with(&format!("{}\n", MARKER)));
}

#[test]
fn convert_prefixes_prose_and_keeps_code() {
    let blocks = vec![
        SourceToplevelBlock::Preamble { lang: SourceLanguage::Djot },
        SourceToplevelBlock::LiterateBlock { lines: lines(&["one", "two"]) },
        SourceToplevelBlock::VerbatimBlock {
            lang: GeneratedLanguage::Rust,
            lines: lines(&["code"]),
        },
        SourceToplevelBlock::Postamble,
    ];
    let groups = convert_source_blocks(blocks).unwrap();
    assert_eq!(groups.len(), 4);
    assert!(matches!(groups[0], GeneratedLineGroup::Preamble));
    match &groups[1] {
        GeneratedLineGroup::CodeLineGroup(l) => assert_eq!(l, &lines(&["// one", "// two"])),
        _ => panic!("prose should become a code line group"),
    }
    match &groups[2] {
        GeneratedLineGroup::CodeLineGroup(l) => assert_eq!(l, &lines(&["code"])),
        _ => panic!("code should stay a code line group"),
    }
    assert!(matches!(groups[3], GeneratedLineGroup::Postamble { .. }));
}

#[test]
fn analyze_code_only_document() {
    let blocks = analyze_source_blocks("```rust\nfn main() {}\n```\n").unwrap();
    assert_eq!(blocks.len(), 3);
    assert!(matches!(blocks[0], SourceToplevelBlock::Preamble { .. }));
    match &blocks[1] {
        SourceToplevelBlock::VerbatimBlock { lang: GeneratedLanguage::Rust, lines: l } => {
            assert_eq!(l, &lines(&["fn main() {}"]));
        },
        _ => panic!("expected a verbatim block"),
    }
    assert!(matches!(blocks[2], SourceToplevelBlock::Postamble));
}

#[test]
fn analyze_prose_only_document() {
    let blocks = analyze_source_blocks("Hello world\n").unwrap();
    assert_eq!(blocks.len(), 3);
    match &blocks[1] {
        SourceToplevelBlock::LiterateBlock { lines: l } => {
            assert_eq!(l, &lines(&["Hello world"]));
        },
        _ => panic!("expected a literate block"),
    }
}

#[test]
fn analyze_non_rust_code_is_prose() {
    let blocks = analyze_source_blocks("```python\nprint()\n```\n").unwrap();
    assert_eq!(blocks.len(), 3);
    assert!(matches!(&blocks[1], SourceToplevelBlock::LiterateBlock { .. }));
}

fn kind(block: bool, lang: Option<&str>) -> ContainerKind {
    ContainerKind { block, code_language: lang.map(|s| s.to_string()) }
}

fn ev(class: EventClass, start: usize, end: usize) -> MarkupEvent {
    MarkupEvent { class, start, end }
}

#[test]
fn nested_container_of_different_kind_stays_in_one_group() {
    let events = vec![
        ev(EventClass::Start(kind(true, None)), 0, 2),
        ev(EventClass::Start(kind(true, Some("rust"))), 2, 6),
        ev(EventClass::End(kind(true, Some("rust"))), 6, 9),
        ev(EventClass::End(kind(true, None)), 9, 10),
    ];
    let (end, range) = pull_next_top_level_block(&events, 0);
    assert_eq!(end, 4);
    assert_eq!(range, (0, 10));
}

#[test]
fn same_kind_nesting_is_balanced() {
    let events = vec![
        ev(EventClass::Start(kind(true, None)), 0, 1),
        ev(EventClass::Start(kind(true, None)), 1, 2),
        ev(EventClass::End(kind(true, None)), 2, 3),
        ev(EventClass::End(kind(true, None)), 3, 4),
        ev(EventClass::Singleton, 4, 5),
    ];
    let (end, _) = pull_next_top_level_block(&events, 0);
    assert_eq!(end, 4);
    let (end2, range2) = pull_next_top_level_block(&events, 4);
    assert_eq!(end2, 5);
    assert_eq!(range2, (4, 5));
}

#[test]
fn union_range_takes_least_start_and_greatest_end() {
    assert_eq!(union_range((3, 7), (1, 5)), (1, 7));
    assert_eq!(union_range((0, 2), (4, 9)), (0, 9));
}
