use vstd::prelude::*;

use crate::tangle::{spec_convert_blocks, spec_generated_text};
use crate::tangle_and_untangle::{
    sep, spec_line_block, spec_signature, BlockModel, ConversionError, GroupModel,
};
use crate::text::{chop_cr, first_nl, is_ws_char, lemma_first_nl_is, spec_lines, spec_trim};
use crate::untangle::{spec_analyze_lines, spec_convert_groups, spec_drop_trailing_empty};

verus! {

/// Splitting a run of newline-terminated lines followed by `rest` back into
/// lines recovers the lines, as long as none of them holds a newline or ends
/// with a carriage return.
proof fn lemma_lines_of_line_block(ls: Seq<Seq<char>>, rest: Seq<char>)
    requires
        forall|i: int| 0 <= i < ls.len() ==> !(#[trigger] ls[i]).contains('\n'),
        forall|i: int|
            0 <= i < ls.len() ==> (ls[i].len() > 0 ==> (#[trigger] ls[i]).last() != '\r'),
    ensures
        spec_lines(spec_line_block(ls) + rest) == ls + spec_lines(rest),
    decreases ls.len(),
{
    if ls.len() == 0 {
        assert(spec_line_block(ls) + rest =~= rest);
        assert(ls + spec_lines(rest) =~= spec_lines(rest));
    } else {
        let l0 = ls[0];
        let s = spec_line_block(ls) + rest;
        let tail = spec_line_block(ls.drop_first()) + rest;
        assert(s =~= l0 + seq!['\n'] + tail);
        assert forall|k: int| 0 <= k < l0.len() implies s[k] != '\n' by {
            assert(s[k] == l0[k]);
            if l0[k] == '\n' {
                assert(l0.contains('\n'));
            }
        }
        assert(s[l0.len() as int] == '\n');
        lemma_first_nl_is(s, l0.len() as int);
        assert(s.take(l0.len() as int) =~= l0);
        assert(chop_cr(l0) == l0);
        assert(s.skip(l0.len() as int + 1) =~= tail);
        let lrest = ls.drop_first();
        assert forall|i: int| 0 <= i < lrest.len() implies !(#[trigger] lrest[i]).contains('\n')
        by {
            assert(lrest[i] == ls[i + 1]);
        }
        assert forall|i: int|
            0 <= i < lrest.len() implies (lrest[i].len() > 0 ==> (#[trigger] lrest[i]).last()
                != '\r') by {
            assert(lrest[i] == ls[i + 1]);
        }
        lemma_lines_of_line_block(ls.drop_first(), rest);
        assert(spec_lines(s) == seq![chop_cr(s.take(first_nl(s) as int))].add(
            spec_lines(s.skip(first_nl(s) as int + 1)),
        ));
        assert(spec_lines(s) =~= ls + spec_lines(rest));
    }
}

/// The marker line is not empty, holds no newline, does not end in a carriage
/// return, and trimming leaves it unchanged.
proof fn lemma_signature_facts()
    ensures
        spec_signature().len() > 0,
        forall|k: int| 0 <= k < spec_signature().len() ==> spec_signature()[k] != '\n',
        spec_signature().last() != '\r',
        spec_trim(spec_signature()) == spec_signature(),
{
    reveal_strlit("// [LITWEB djot->rust]");
    let s = spec_signature();
    assert(s.len() == 22);
    assert forall|k: int| 0 <= k < s.len() implies s[k] != '\n' by {
        assert(s[k] != '\n');
    }
    assert(!is_ws_char(s[0]));
    assert(!is_ws_char(s.last()));
    assert(spec_trim(s) == s);
}

/// Round trip: a literate document holding exactly one code block and no
/// prose tangles to a marker-bearing generated file from which untangling
/// recovers the code content byte for byte. Lines holding a newline, ending
/// in a carriage return, or leaving the block's last line empty sit outside
/// the guarantee: line splitting and blank-padding removal do not preserve
/// them.
pub proof fn lemma_tangle_untangle_code_roundtrip(lines: Seq<Seq<char>>)
    requires
        forall|i: int| 0 <= i < lines.len() ==> !(#[trigger] lines[i]).contains('\n'),
        forall|i: int|
            0 <= i < lines.len() ==> (lines[i].len() > 0 ==> (#[trigger] lines[i]).last() != '\r'),
        lines.len() > 0 ==> lines.last().len() > 0,
    ensures
        ({
            let doc = seq![
                BlockModel::Preamble,
                BlockModel::Verbatim { lines },
                BlockModel::Postamble,
            ];
            let text = spec_generated_text(spec_convert_blocks(doc), true);
            &&& spec_analyze_lines(spec_lines(text)) matches Ok(gs)
            &&& spec_convert_groups(gs) == Ok::<Seq<BlockModel>, ConversionError>(doc)
        }),
{
    let doc = seq![BlockModel::Preamble, BlockModel::Verbatim { lines }, BlockModel::Postamble];
    let gs0 = spec_convert_blocks(doc);
    let g1 = seq![GroupModel::Code { lines }, GroupModel::Postamble];
    let g2 = seq![GroupModel::Postamble];
    assert(gs0 =~= seq![GroupModel::Preamble, GroupModel::Code { lines }, GroupModel::Postamble]);
    let text = spec_generated_text(gs0, true);
    assert(gs0.drop_first() =~= g1);
    assert(g1.drop_first() =~= g2);
    assert(g2.drop_first() =~= Seq::<GroupModel>::empty());
    assert(spec_generated_text(Seq::<GroupModel>::empty(), false) =~= Seq::<char>::empty());
    let rest = seq!['\n'] + spec_signature() + seq!['\n'];
    assert(spec_generated_text(gs0, true) == spec_generated_text(g1, true));
    assert(spec_generated_text(g1, true) == sep(true) + spec_line_block(lines)
        + spec_generated_text(g2, false));
    assert(spec_generated_text(g2, false) == sep(false) + spec_signature() + seq!['\n']
        + spec_generated_text(Seq::<GroupModel>::empty(), false));
    assert(text =~= spec_line_block(lines) + rest);
    lemma_signature_facts();
    lemma_lines_of_line_block(lines, rest);
    assert(spec_lines(text) == lines + spec_lines(rest));
    // The remainder splits into the blank separator line and the marker line.
    lemma_first_nl_is(rest, 0);
    let rest2 = spec_signature() + seq!['\n'];
    assert(rest.skip(1) =~= rest2);
    assert(chop_cr(rest.take(0)) =~= Seq::<char>::empty());
    assert forall|k: int| 0 <= k < spec_signature().len() implies rest2[k] != '\n' by {
        assert(rest2[k] == spec_signature()[k]);
    }
    assert(rest2[spec_signature().len() as int] == '\n');
    lemma_first_nl_is(rest2, spec_signature().len() as int);
    assert(rest2.take(spec_signature().len() as int) =~= spec_signature());
    assert(chop_cr(spec_signature()) == spec_signature());
    assert(rest2.skip(spec_signature().len() as int + 1) =~= Seq::<char>::empty());
    assert(spec_lines(Seq::<char>::empty()) =~= Seq::<Seq<char>>::empty());
    assert(spec_lines(rest2) =~= seq![spec_signature()]);
    assert(spec_lines(rest) =~= seq![Seq::<char>::empty(), spec_signature()]);
    let all = lines + seq![Seq::<char>::empty(), spec_signature()];
    assert(spec_lines(text) =~= all);
    // The marker is found and removed, and the blank separator goes with it.
    assert(all.last() == spec_signature());
    assert(spec_drop_trailing_empty(all) == all);
    assert(spec_trim(all.last()) == spec_signature());
    assert(all.drop_last() =~= lines + seq![Seq::<char>::empty()]);
    assert((lines + seq![Seq::<char>::empty()]).drop_last() =~= lines);
    assert(spec_drop_trailing_empty(lines + seq![Seq::<char>::empty()])
        == spec_drop_trailing_empty(lines));
    assert(spec_drop_trailing_empty(lines) == lines);
    let gs = seq![GroupModel::Preamble, GroupModel::Code { lines }, GroupModel::Postamble];
    assert(spec_analyze_lines(all) matches Ok(g) && g =~~= gs);
    // Converting the recovered groups yields the original document.
    assert forall|k: int| 1 <= k < gs.len() - 1 implies gs[k] is Code by {}
    assert(!(exists|k: int| 1 <= k < gs.len() - 1 && !(gs[k] is Code)));
    let built = seq![BlockModel::Preamble] + Seq::new(
        1nat,
        |i: int| BlockModel::Verbatim { lines: gs[i + 1]->Code_lines },
    ) + seq![BlockModel::Postamble];
    assert(built =~~= doc);
    assert(spec_convert_groups(gs) == Ok::<Seq<BlockModel>, ConversionError>(doc));
}

} // verus!
