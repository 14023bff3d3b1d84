use vstd::prelude::*;

use crate::text::strs_view;

verus! {

/// The markup dialect a literate document is written in. Modeled as an open
/// enumeration even though only one value exists today.
#[derive(Clone, Copy, Debug, PartialEq, Eq, Structural)]
pub enum SourceLanguage {
    Djot,
}

/// The language of the source file a literate document generates.
#[derive(Clone, Copy, Debug, PartialEq, Eq, Structural)]
pub enum GeneratedLanguage {
    Rust,
}

/// A top-level unit of a literate document: the sequence is always
/// `Preamble, (VerbatimBlock | LiterateBlock)*, Postamble`.
#[derive(Debug, Clone)]
pub enum SourceToplevelBlock {
    Preamble { lang: SourceLanguage },
    VerbatimBlock { lang: GeneratedLanguage, lines: Vec<String> },
    LiterateBlock { lines: Vec<String> },
    Postamble,
}

/// A unit of a generated source file: the sequence is always
/// `Preamble, CodeLineGroup*, Postamble`.
#[derive(Debug, Clone)]
pub enum GeneratedLineGroup {
    Preamble,
    CodeLineGroup(Vec<String>),
    Postamble { source_lang: SourceLanguage },
}

/// Mathematical model of a `SourceToplevelBlock`: its lines as sequences of
/// characters. The language tags carry no information while each language
/// enumeration has a single value, so the model drops them.
pub enum BlockModel {
    Preamble,
    Verbatim { lines: Seq<Seq<char>> },
    Literate { lines: Seq<Seq<char>> },
    Postamble,
}

/// Mathematical model of a `GeneratedLineGroup`.
pub enum GroupModel {
    Preamble,
    Code { lines: Seq<Seq<char>> },
    Postamble,
}

pub open spec fn block_model(b: SourceToplevelBlock) -> BlockModel {
    match b {
        SourceToplevelBlock::Preamble { .. } => BlockModel::Preamble,
        SourceToplevelBlock::VerbatimBlock { lines, .. } => BlockModel::Verbatim {
            lines: strs_view(lines@),
        },
        SourceToplevelBlock::LiterateBlock { lines } => BlockModel::Literate {
            lines: strs_view(lines@),
        },
        SourceToplevelBlock::Postamble => BlockModel::Postamble,
    }
}

pub open spec fn blocks_model(v: Seq<SourceToplevelBlock>) -> Seq<BlockModel> {
    v.map_values(|b: SourceToplevelBlock| block_model(b))
}

pub open spec fn group_model(g: GeneratedLineGroup) -> GroupModel {
    match g {
        GeneratedLineGroup::Preamble => GroupModel::Preamble,
        GeneratedLineGroup::CodeLineGroup(lines) => GroupModel::Code {
            lines: strs_view(lines@),
        },
        GeneratedLineGroup::Postamble { .. } => GroupModel::Postamble,
    }
}

pub open spec fn groups_model(v: Seq<GeneratedLineGroup>) -> Seq<GroupModel> {
    v.map_values(|g: GeneratedLineGroup| group_model(g))
}

/// The fixed trailer line that marks a file as machine-generated from a
/// literate document. It is a comment in the generated language and names the
/// source and target language pair.
pub open spec fn spec_signature() -> Seq<char> {
    "// [LITWEB djot->rust]"@
}

pub fn generated_signature() -> (r: &'static str)
    ensures
        r@ == spec_signature(),
{
    "// [LITWEB djot->rust]"
}

/// Errors of the serialization stage. Writing is the caller's affair; the
/// variant carries the underlying failure when a write is wrapped.
#[derive(Debug)]
pub enum GenerationError {
    Io(std::io::Error),
}

/// Errors of the conversion between block and line-group sequences.
#[derive(Debug)]
pub enum ConversionError {
    NoValidPreamble,
    NoValidPostamble,
    UnexpectedGeneratedLineGroup,
}

/// Errors of the analysis stage that builds blocks or line groups from input.
#[derive(Debug)]
pub enum AnalysisError {
    Io(std::io::Error),
    NoValidPostamble,
    InvalidDjotBlock,
}

/// `std::io::Error`, declared so the error enumerations can carry it.
#[verifier::external_type_specification]
#[verifier::external_body]
pub struct ExIoError(std::io::Error);

/// The separator emitted before every output unit but the first: one blank
/// line.
pub open spec fn sep(first: bool) -> Seq<char> {
    if first {
        Seq::empty()
    } else {
        seq!['\n']
    }
}

/// Each line followed by a newline, concatenated.
pub open spec fn spec_line_block(lines: Seq<Seq<char>>) -> Seq<char>
    decreases lines.len(),
{
    if lines.len() == 0 {
        Seq::empty()
    } else {
        lines[0] + seq!['\n'] + spec_line_block(lines.drop_first())
    }
}

} // verus!
