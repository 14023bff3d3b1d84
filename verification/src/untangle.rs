use vstd::prelude::*;

use crate::tangle_and_untangle::{
    block_model, blocks_model, group_model, groups_model, sep, spec_line_block, spec_signature,
    generated_signature, AnalysisError, BlockModel, ConversionError, GeneratedLanguage,
    GeneratedLineGroup, GroupModel, SourceLanguage, SourceToplevelBlock,
};
use crate::text::{clone_lines, spec_trim, strs_view, trim_str};

verus! {

/// `ls` with every trailing empty line removed.
pub open spec fn spec_drop_trailing_empty(ls: Seq<Seq<char>>) -> Seq<Seq<char>>
    decreases ls.len(),
{
    if ls.len() > 0 && ls.last().len() == 0 {
        spec_drop_trailing_empty(ls.drop_last())
    } else {
        ls
    }
}

pub fn drop_trailing_empty_lines(lines: &mut Vec<String>)
    ensures
        strs_view(final(lines)@) == spec_drop_trailing_empty(strs_view(old(lines)@)),
{
    while lines.len() > 0 && lines[lines.len() - 1].as_str().is_empty()
        invariant
            spec_drop_trailing_empty(strs_view(old(lines)@)) == spec_drop_trailing_empty(
                strs_view(lines@),
            ),
        decreases lines@.len(),
    {
        proof {
            assert(strs_view(lines@).last() == lines@.last()@);
            assert(strs_view(lines@.drop_last()) =~= strs_view(lines@).drop_last());
        }
        lines.pop();
    }
    proof {
        if lines@.len() > 0 {
            assert(strs_view(lines@).last() == lines@.last()@);
            assert(strs_view(lines@).last().len() != 0);
        }
        assert(spec_drop_trailing_empty(strs_view(lines@)) == strs_view(lines@));
    }
}

/// Detects and removes the generated-file marker: trailing blank lines are
/// dropped, the last remaining line must equal the marker after trimming, and
/// the blank padding that preceded the marker is dropped with it.
pub fn take_postamble(lines: &mut Vec<String>) -> (r: Option<GeneratedLineGroup>)
    ensures
        ({
            let d = spec_drop_trailing_empty(strs_view(old(lines)@));
            if d.len() > 0 && spec_trim(d.last()) == spec_signature() {
                &&& r == Some(
                    GeneratedLineGroup::Postamble { source_lang: SourceLanguage::Djot },
                )
                &&& strs_view(final(lines)@) == spec_drop_trailing_empty(d.drop_last())
            } else {
                &&& r is None
                &&& strs_view(final(lines)@) == d
            }
        }),
{
    drop_trailing_empty_lines(lines);
    if lines.len() == 0 {
        return None;
    }
    let trimmed = trim_str(lines[lines.len() - 1].as_str());
    let sig = generated_signature().to_owned();
    proof {
        assert(strs_view(lines@).last() == lines@.last()@);
    }
    if trimmed == sig {
        proof {
            assert(strs_view(lines@.drop_last()) =~= strs_view(lines@).drop_last());
        }
        lines.pop();
        drop_trailing_empty_lines(lines);
        Some(GeneratedLineGroup::Postamble { source_lang: SourceLanguage::Djot })
    } else {
        None
    }
}

/// The line groups recovered from a generated file's lines: one preamble, one
/// code group holding every line above the marker, one postamble; refused when
/// the marker is missing.
pub open spec fn spec_analyze_lines(ls: Seq<Seq<char>>) -> Result<Seq<GroupModel>, AnalysisError> {
    let d = spec_drop_trailing_empty(ls);
    if d.len() > 0 && spec_trim(d.last()) == spec_signature() {
        Ok(
            seq![
                GroupModel::Preamble,
                GroupModel::Code { lines: spec_drop_trailing_empty(d.drop_last()) },
                GroupModel::Postamble,
            ],
        )
    } else {
        Err(AnalysisError::NoValidPostamble)
    }
}

pub fn analyze_line_groups(lines: Vec<String>) -> (r: Result<
    Vec<GeneratedLineGroup>,
    AnalysisError,
>)
    ensures
        ({
            let m = spec_analyze_lines(strs_view(lines@));
            match r {
                Ok(g) => m matches Ok(mm) && groups_model(g@) == mm,
                Err(e) => m matches Err(AnalysisError::NoValidPostamble) && e matches
                    AnalysisError::NoValidPostamble,
            }
        }),
{
    let mut lines = lines;
    match take_postamble(&mut lines) {
        None => Err(AnalysisError::NoValidPostamble),
        Some(post) => {
            let mut result: Vec<GeneratedLineGroup> = Vec::new();
            result.push(GeneratedLineGroup::Preamble);
            let ghost code_lines = strs_view(lines@);
            result.push(GeneratedLineGroup::CodeLineGroup(lines));
            result.push(post);
            proof {
                assert(groups_model(result@) =~= seq![
                    GroupModel::Preamble,
                    GroupModel::Code { lines: code_lines },
                    GroupModel::Postamble,
                ]);
            }
            Ok(result)
        },
    }
}

/// The blocks a line-group sequence converts to: the groups must be exactly
/// one preamble, any number of code groups, one postamble.
pub open spec fn spec_convert_groups(gs: Seq<GroupModel>) -> Result<
    Seq<BlockModel>,
    ConversionError,
> {
    if !(gs.len() > 0 && gs[0] is Preamble) {
        Err(ConversionError::NoValidPreamble)
    } else if !(gs.len() >= 2 && gs.last() is Postamble) {
        Err(ConversionError::NoValidPostamble)
    } else if exists|i: int| 1 <= i < gs.len() - 1 && !(gs[i] is Code) {
        Err(ConversionError::UnexpectedGeneratedLineGroup)
    } else {
        Ok(
            seq![BlockModel::Preamble] + Seq::new(
                (gs.len() - 2) as nat,
                |i: int| BlockModel::Verbatim { lines: gs[i + 1]->Code_lines },
            ) + seq![BlockModel::Postamble],
        )
    }
}

pub fn convert_line_groups(
    generated: Vec<GeneratedLineGroup>,
    generated_lang: GeneratedLanguage,
) -> (r: Result<Vec<SourceToplevelBlock>, ConversionError>)
    ensures
        ({
            let m = spec_convert_groups(groups_model(generated@));
            match r {
                Ok(v) => m matches Ok(b) && blocks_model(v@) == b,
                Err(e) => m matches Err(me) && me == e,
            }
        }),
{
    let ghost gs = groups_model(generated@);
    let n = generated.len();
    if n == 0 {
        return Err(ConversionError::NoValidPreamble);
    }
    match &generated[0] {
        GeneratedLineGroup::Preamble => {},
        _ => {
            return Err(ConversionError::NoValidPreamble);
        },
    }
    let last_ok = match &generated[n - 1] {
        GeneratedLineGroup::Postamble { .. } => true,
        _ => false,
    };
    if n < 2 || !last_ok {
        proof {
            assert(gs.last() == group_model(generated@[n - 1]));
        }
        return Err(ConversionError::NoValidPostamble);
    }
    proof {
        assert(gs[0] == group_model(generated@[0]));
        assert(gs.last() == group_model(generated@[n - 1]));
    }
    let mut result: Vec<SourceToplevelBlock> = Vec::new();
    result.push(SourceToplevelBlock::Preamble { lang: SourceLanguage::Djot });
    proof {
        assert(blocks_model(result@) =~~= seq![BlockModel::Preamble] + Seq::new(
            0nat,
            |k: int| BlockModel::Verbatim { lines: gs[k + 1]->Code_lines },
        ));
    }
    let mut i: usize = 1;
    while i < n - 1
        invariant
            1 <= i <= n - 1,
            n == generated@.len(),
            gs == groups_model(generated@),
            gs.len() == n,
            gs[0] is Preamble,
            gs.last() is Postamble,
            forall|k: int| 1 <= k < i ==> gs[k] is Code,
            blocks_model(result@) =~~= seq![BlockModel::Preamble] + Seq::new(
                (i - 1) as nat,
                |k: int| BlockModel::Verbatim { lines: gs[k + 1]->Code_lines },
            ),
        decreases n - i,
    {
        match &generated[i] {
            GeneratedLineGroup::CodeLineGroup(lines) => {
                let owned = clone_lines(lines);
                let ghost prev = result@;
                let ghost prev_target = seq![BlockModel::Preamble] + Seq::new(
                    (i - 1) as nat,
                    |k: int| BlockModel::Verbatim { lines: gs[k + 1]->Code_lines },
                );
                result.push(
                    SourceToplevelBlock::VerbatimBlock { lang: generated_lang, lines: owned },
                );
                proof {
                    let target = seq![BlockModel::Preamble] + Seq::new(
                        i as nat,
                        |k: int| BlockModel::Verbatim { lines: gs[k + 1]->Code_lines },
                    );
                    assert(gs[i as int] == group_model(generated@[i as int]));
                    assert(owned@ == lines@);
                    assert(blocks_model(prev).len() == prev.len());
                    assert(blocks_model(prev) == prev_target);
                    assert(prev.len() == i as int);
                    assert(result@ == prev.push(result@.last()));
                    assert(blocks_model(result@).len() == result@.len());
                    assert(blocks_model(result@).len() == target.len());
                    assert forall|j: int| 0 <= j < target.len() implies blocks_model(
                        result@,
                    )[j] == target[j] by {
                        assert(blocks_model(result@)[j] == block_model(result@[j]));
                        if j < i as int {
                            assert(result@[j] == prev[j]);
                            assert(blocks_model(prev)[j] == block_model(prev[j]));
                            assert(blocks_model(prev)[j] == prev_target[j]);
                            assert(prev_target[j] == target[j]);
                        } else {
                            assert(result@[j] == result@.last());
                            assert(block_model(result@[j]) == BlockModel::Verbatim {
                                lines: gs[i as int]->Code_lines,
                            });
                        }
                    }
                    assert(blocks_model(result@) =~= target);
                }
            },
            _ => {
                proof {
                    assert(gs[i as int] == group_model(generated@[i as int]));
                    assert(exists|k: int| 1 <= k < gs.len() - 1 && !(gs[k] is Code)) by {
                        assert(1 <= (i as int) && (i as int) < gs.len() - 1 && !(gs[i as int]
                            is Code));
                    }
                    assert(spec_convert_groups(gs) == Err::<Seq<BlockModel>, ConversionError>(
                        ConversionError::UnexpectedGeneratedLineGroup,
                    ));
                }
                return Err(ConversionError::UnexpectedGeneratedLineGroup);
            },
        }
        i = i + 1;
    }
    let ghost prev = result@;
    let ghost prev_target = seq![BlockModel::Preamble] + Seq::new(
        (i - 1) as nat,
        |k: int| BlockModel::Verbatim { lines: gs[k + 1]->Code_lines },
    );
    result.push(SourceToplevelBlock::Postamble);
    proof {
        assert(!(exists|k: int| 1 <= k < gs.len() - 1 && !(gs[k] is Code)));
        let target = seq![BlockModel::Preamble] + Seq::new(
            (gs.len() - 2) as nat,
            |k: int| BlockModel::Verbatim { lines: gs[k + 1]->Code_lines },
        ) + seq![BlockModel::Postamble];
        assert(blocks_model(result@).len() == target.len());
        assert forall|j: int| 0 <= j < target.len() implies blocks_model(result@)[j] == target[j]
        by {
            assert(blocks_model(result@)[j] == block_model(result@[j]));
            if j < i as int {
                assert(result@[j] == prev[j]);
                assert(blocks_model(prev)[j] == block_model(prev[j]));
                assert(blocks_model(prev)[j] == prev_target[j]);
            } else {
                assert(result@[j] == result@.last());
            }
        }
        assert(blocks_model(result@) =~= target);
    }
    Ok(result)
}

} // verus!

verus! {

/// Every character of `l` is a backtick.
pub open spec fn all_backticks(l: Seq<char>) -> bool {
    forall|k: int| 0 <= k < l.len() ==> l[k] == '`'
}

/// The fence-width accumulator: scanning lines from index `i`, a line of
/// backticks at least as long as the width seen so far raises the width to
/// one more than that line's length.
pub open spec fn fence_len_from(lines: Seq<Seq<char>>, i: int, acc: int) -> int
    decreases lines.len() - i,
{
    if i < 0 || i >= lines.len() {
        acc
    } else {
        let next = if lines[i].len() >= acc && all_backticks(lines[i]) {
            lines[i].len() as int + 1
        } else {
            acc
        };
        fence_len_from(lines, i + 1, next)
    }
}

/// The fence width for a code block: at least three, and wider than any
/// all-backtick line among its lines.
pub open spec fn spec_fence_len(lines: Seq<Seq<char>>) -> int {
    fence_len_from(lines, 0, 3)
}

pub open spec fn backticks(n: int) -> Seq<char> {
    Seq::new(n as nat, |i: int| '`')
}

/// The opening fence line: the backticks followed by the language tag.
pub open spec fn spec_fence_open(lines: Seq<Seq<char>>) -> Seq<char> {
    backticks(spec_fence_len(lines)) + " rust"@
}

/// Each line is short enough that a fence one character longer still fits in
/// a machine word.
pub open spec fn lines_fit(lines: Seq<Seq<char>>) -> bool {
    forall|i: int| 0 <= i < lines.len() ==> lines[i].len() < usize::MAX
}

pub proof fn lemma_fence_len_from_ge(lines: Seq<Seq<char>>, i: int, acc: int)
    ensures
        fence_len_from(lines, i, acc) >= acc,
    decreases lines.len() - i,
{
    if 0 <= i && i < lines.len() {
        let next = if lines[i].len() >= acc && all_backticks(lines[i]) {
            lines[i].len() as int + 1
        } else {
            acc
        };
        lemma_fence_len_from_ge(lines, i + 1, next);
    }
}

proof fn lemma_fence_from_exceeds(lines: Seq<Seq<char>>, i: int, acc: int, j: int)
    requires
        0 <= i <= j < lines.len(),
        all_backticks(lines[j]),
    ensures
        fence_len_from(lines, i, acc) > lines[j].len(),
    decreases lines.len() - i,
{
    let next = if lines[i].len() >= acc && all_backticks(lines[i]) {
        lines[i].len() as int + 1
    } else {
        acc
    };
    if i == j {
        lemma_fence_len_from_ge(lines, i + 1, next);
    } else {
        lemma_fence_from_exceeds(lines, i + 1, next, j);
    }
}

/// Fence-width selection: for a block holding a line of backticks of length
/// `N`, the chosen fence is at least `N + 1` wide, and it is never narrower
/// than three.
pub proof fn lemma_fence_exceeds_backtick_lines(lines: Seq<Seq<char>>, j: int)
    requires
        0 <= j < lines.len(),
        all_backticks(lines[j]),
    ensures
        spec_fence_len(lines) >= 3,
        spec_fence_len(lines) > lines[j].len(),
{
    lemma_fence_len_from_ge(lines, 0, 3);
    lemma_fence_from_exceeds(lines, 0, 3, j);
}

fn line_all_backticks(line: &str) -> (r: bool)
    ensures
        r == all_backticks(line@),
{
    let n = line.unicode_len();
    let mut all = true;
    let mut j: usize = 0;
    while j < n
        invariant
            j <= n,
            n == line@.len(),
            all == (forall|k: int| 0 <= k < j ==> line@[k] == '`'),
        decreases n - j,
    {
        if line.get_char(j) != '`' {
            all = false;
        }
        j = j + 1;
    }
    all
}

/// Computes the opening and closing fence for a verbatim block, wide enough
/// that no line of the block can be mistaken for the closing fence.
pub fn calc_djot_fences(lang: GeneratedLanguage, lines: &Vec<String>) -> (r: (String, String))
    requires
        lines_fit(strs_view(lines@)),
    ensures
        r.1@ == backticks(spec_fence_len(strs_view(lines@))),
        r.0@ == spec_fence_open(strs_view(lines@)),
{
    let ghost sv = strs_view(lines@);
    let mut fence_len: usize = 3;
    let mut i: usize = 0;
    while i < lines.len()
        invariant
            i <= lines@.len(),
            sv == strs_view(lines@),
            lines_fit(sv),
            fence_len >= 3,
            fence_len_from(sv, 0, 3) == fence_len_from(sv, i as int, fence_len as int),
        decreases lines@.len() - i,
    {
        let line = &lines[i];
        proof {
            assert(sv[i as int] == lines@[i as int]@);
        }
        let line_len = line.as_str().unicode_len();
        let bt = line_all_backticks(line.as_str());
        let ghost f0 = fence_len as int;
        if line_len >= fence_len && bt {
            fence_len = line_len + 1;
        }
        proof {
            assert(fence_len_from(sv, i as int, f0) == fence_len_from(
                sv,
                i + 1,
                fence_len as int,
            ));
        }
        i = i + 1;
    }
    let mut fence_end = String::new();
    let mut k: usize = 0;
    proof {
        assert(fence_end@ =~= backticks(0));
    }
    while k < fence_len
        invariant
            k <= fence_len,
            fence_end@ == backticks(k as int),
        decreases fence_len - k,
    {
        fence_end.append("`");
        proof {
            reveal_strlit("`");
            assert(fence_end@ =~= backticks(k + 1));
        }
        k = k + 1;
    }
    let mut fence_start = fence_end.clone();
    match lang {
        GeneratedLanguage::Rust => {
            fence_start.append(" rust");
        },
    }
    (fence_start, fence_end)
}

/// The text of a literate document: verbatim blocks fenced, literate blocks
/// plain, one blank line between emitted blocks, nothing for the preamble and
/// postamble.
pub open spec fn spec_djot_text(bs: Seq<BlockModel>, first: bool) -> Seq<char>
    decreases bs.len(),
{
    if bs.len() == 0 {
        Seq::empty()
    } else {
        match bs[0] {
            BlockModel::Preamble => spec_djot_text(bs.drop_first(), first),
            BlockModel::Verbatim { lines } => sep(first) + spec_fence_open(lines) + seq!['\n']
                + spec_line_block(lines) + backticks(spec_fence_len(lines)) + seq!['\n']
                + spec_djot_text(bs.drop_first(), false),
            BlockModel::Literate { lines } => sep(first) + spec_line_block(lines)
                + spec_djot_text(bs.drop_first(), false),
            BlockModel::Postamble => spec_djot_text(bs.drop_first(), first),
        }
    }
}

/// The verbatim blocks' lines are short enough for fence computation.
pub open spec fn model_fit(bs: Seq<BlockModel>) -> bool {
    forall|k: int|
        0 <= k < bs.len() ==> (#[trigger] bs[k] matches BlockModel::Verbatim { lines }
            ==> lines_fit(lines))
}

pub fn generate_output(source: Vec<SourceToplevelBlock>) -> (r: String)
    requires
        model_fit(blocks_model(source@)),
    ensures
        r@ == spec_djot_text(blocks_model(source@), true),
{
    let ghost model = blocks_model(source@);
    let ghost total = spec_djot_text(model, true);
    let mut out = String::new();
    let mut first = true;
    let mut i: usize = 0;
    proof {
        assert(model.skip(0) =~= model);
        assert(out@ + spec_djot_text(model, true) =~= total);
    }
    while i < source.len()
        invariant
            i <= source@.len(),
            model == blocks_model(source@),
            model.len() == source@.len(),
            model_fit(model),
            total == spec_djot_text(model, true),
            total == out@ + spec_djot_text(model.skip(i as int), first),
        decreases source@.len() - i,
    {
        let ghost out0 = out@;
        let ghost first0 = first;
        proof {
            assert(model[i as int] == block_model(source@[i as int]));
            assert(model.skip(i as int)[0] == model[i as int]);
            assert(model.skip(i as int).drop_first() =~= model.skip(i + 1));
            reveal_strlit("\n");
            assert("\n"@ =~= seq!['\n']);
        }
        match &source[i] {
            SourceToplevelBlock::Preamble { lang } => {
                proof {
                    assert(spec_djot_text(model.skip(i as int), first) == spec_djot_text(
                        model.skip(i + 1),
                        first,
                    ));
                }
            },
            SourceToplevelBlock::Postamble => {
                proof {
                    assert(spec_djot_text(model.skip(i as int), first) == spec_djot_text(
                        model.skip(i + 1),
                        first,
                    ));
                }
            },
            SourceToplevelBlock::VerbatimBlock { lang, lines } => {
                let ghost sv = strs_view(lines@);
                proof {
                    assert(model[i as int] matches BlockModel::Verbatim { lines: l } && l == sv);
                    assert(lines_fit(sv));
                    assert(spec_djot_text(model.skip(i as int), first) == sep(first)
                        + spec_fence_open(sv) + seq!['\n'] + spec_line_block(sv) + backticks(
                        spec_fence_len(sv),
                    ) + seq!['\n'] + spec_djot_text(model.skip(i + 1), false));
                }
                if !first {
                    out.append("\n");
                }
                first = false;
                let fences = calc_djot_fences(*lang, lines);
                out.append(fences.0.as_str());
                out.append("\n");
                let ghost base = out@;
                proof {
                    assert(base =~= out0 + sep(first0) + spec_fence_open(sv) + seq!['\n']);
                    assert(sv.skip(0) =~= sv);
                }
                let mut j: usize = 0;
                while j < lines.len()
                    invariant
                        j <= lines@.len(),
                        sv == strs_view(lines@),
                        base + spec_line_block(sv) == out@ + spec_line_block(sv.skip(j as int)),
                    decreases lines@.len() - j,
                {
                    proof {
                        assert(sv[j as int] == lines@[j as int]@);
                        assert(sv.skip(j as int)[0] == sv[j as int]);
                        assert(sv.skip(j as int).drop_first() =~= sv.skip(j + 1));
                        reveal_strlit("\n");
                        assert("\n"@ =~= seq!['\n']);
                    }
                    let ghost before = out@;
                    out.append(lines[j].as_str());
                    out.append("\n");
                    proof {
                        assert(out@ =~= before + sv[j as int] + seq!['\n']);
                        assert(base + spec_line_block(sv) =~= out@ + spec_line_block(
                            sv.skip(j + 1),
                        ));
                    }
                    j = j + 1;
                }
                proof {
                    assert(spec_line_block(sv.skip(lines@.len() as int)) =~= Seq::<char>::empty());
                    assert(out@ =~= base + spec_line_block(sv));
                }
                out.append(fences.1.as_str());
                out.append("\n");
                proof {
                    assert(out@ =~= out0 + (sep(first0) + spec_fence_open(sv) + seq!['\n']
                        + spec_line_block(sv) + backticks(spec_fence_len(sv)) + seq!['\n']));
                    assert(out0 + spec_djot_text(model.skip(i as int), first0) =~= out@
                        + spec_djot_text(model.skip(i + 1), false));
                }
            },
            SourceToplevelBlock::LiterateBlock { lines } => {
                let ghost sv = strs_view(lines@);
                proof {
                    assert(model[i as int] matches BlockModel::Literate { lines: l } && l == sv);
                    assert(spec_djot_text(model.skip(i as int), first) == sep(first)
                        + spec_line_block(sv) + spec_djot_text(model.skip(i + 1), false));
                }
                if !first {
                    out.append("\n");
                }
                first = false;
                let ghost base = out@;
                proof {
                    assert(base =~= out0 + sep(first0));
                    assert(sv.skip(0) =~= sv);
                }
                let mut j: usize = 0;
                while j < lines.len()
                    invariant
                        j <= lines@.len(),
                        sv == strs_view(lines@),
                        base + spec_line_block(sv) == out@ + spec_line_block(sv.skip(j as int)),
                    decreases lines@.len() - j,
                {
                    proof {
                        assert(sv[j as int] == lines@[j as int]@);
                        assert(sv.skip(j as int)[0] == sv[j as int]);
                        assert(sv.skip(j as int).drop_first() =~= sv.skip(j + 1));
                        reveal_strlit("\n");
                        assert("\n"@ =~= seq!['\n']);
                    }
                    let ghost before = out@;
                    out.append(lines[j].as_str());
                    out.append("\n");
                    proof {
                        assert(out@ =~= before + sv[j as int] + seq!['\n']);
                        assert(base + spec_line_block(sv) =~= out@ + spec_line_block(
                            sv.skip(j + 1),
                        ));
                    }
                    j = j + 1;
                }
                proof {
                    assert(spec_line_block(sv.skip(lines@.len() as int)) =~= Seq::<char>::empty());
                    assert(out@ =~= base + spec_line_block(sv));
                    assert(out0 + spec_djot_text(model.skip(i as int), first0) =~= out@
                        + spec_djot_text(model.skip(i + 1), false));
                }
            },
        }
        i = i + 1;
    }
    proof {
        assert(spec_djot_text(model.skip(i as int), first) =~= Seq::<char>::empty());
        assert(out@ =~= total);
    }
    out
}

} // verus!
