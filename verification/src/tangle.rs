use vstd::prelude::*;

use jotdown::Container as JotContainer;
use jotdown::Event as JotEvent;

use crate::tangle_and_untangle::{
    block_model, blocks_model, groups_model, sep, spec_line_block, spec_signature,
    generated_signature, AnalysisError, BlockModel, ConversionError, GeneratedLanguage,
    GeneratedLineGroup, GroupModel, SourceLanguage, SourceToplevelBlock,
};
use crate::text::{clone_lines, spec_lines, spec_trim_end, split_lines, strs_view, trim_end_str};

verus! {

/// What the event source reports of a container: whether it is a block-level
/// container, and the declared language tag when it is a fenced code block.
#[derive(Debug, Clone)]
pub struct ContainerKind {
    pub block: bool,
    pub code_language: Option<String>,
}

/// The shape of one typed parse event of the markup source.
#[derive(Debug, Clone)]
pub enum EventClass {
    /// An event that carries no nesting: a blank line or a thematic break.
    Singleton,
    Start(ContainerKind),
    End(ContainerKind),
    /// A run of literal text.
    Text(String),
    /// Any other inline event.
    Inline,
}

/// One parse event together with the byte range of source it covers.
#[derive(Debug, Clone)]
pub struct MarkupEvent {
    pub class: EventClass,
    pub start: usize,
    pub end: usize,
}

pub open spec fn lang_view(o: Option<String>) -> Option<Seq<char>> {
    match o {
        Some(s) => Some(s@),
        None => None,
    }
}

/// Two containers are of the same kind.
pub open spec fn kind_eq(a: ContainerKind, b: ContainerKind) -> bool {
    a.block == b.block && lang_view(a.code_language) == lang_view(b.code_language)
}

pub fn same_kind(a: &ContainerKind, b: &ContainerKind) -> (r: bool)
    ensures
        r == kind_eq(*a, *b),
{
    if a.block != b.block {
        return false;
    }
    match (&a.code_language, &b.code_language) {
        (Option::None, Option::None) => true,
        (Option::Some(x), Option::Some(y)) => x.eq(y),
        _ => false,
    }
}

/// A fenced code block declared in the generated language.
pub open spec fn is_rust_code(k: ContainerKind) -> bool {
    lang_view(k.code_language) == Some("rust"@)
}

pub fn kind_is_rust_code(k: &ContainerKind) -> (r: bool)
    ensures
        r == is_rust_code(*k),
{
    match &k.code_language {
        Option::Some(l) => {
            let rust = "rust".to_owned();
            l.eq(&rust)
        },
        Option::None => false,
    }
}

fn clone_kind(k: &ContainerKind) -> (r: ContainerKind)
    ensures
        r == *k,
{
    ContainerKind {
        block: k.block,
        code_language: (match &k.code_language {
            Option::Some(s) => Some(s.clone()),
            Option::None => None,
        }),
    }
}

/// The parse events the markup parser reports for a source text, in this
/// model: a function of the source text alone.
pub uninterp spec fn djot_events(src: Seq<char>) -> Seq<MarkupEvent>;

/// The characters found at a byte range of a text; empty when the range is
/// not a character-aligned range of the text.
pub uninterp spec fn byte_range_chars(src: Seq<char>, start: int, end: int) -> Seq<char>;

/// Relies on jotdown::Parser and its offset iterator: the event stream is a
/// function of the source text alone. Each event is carried over with its
/// byte range; containers keep jotdown's own block classification and, for
/// fenced code blocks, the declared language tag.
#[verifier::external_body]
fn parse_events(source: &str) -> (r: Vec<MarkupEvent>)
    ensures
        r@ == djot_events(source@),
{
    jotdown::Parser::new(source).into_offset_iter().map(|(ev, sp)| MarkupEvent {
        class: (match ev {
            JotEvent::Blankline | JotEvent::ThematicBreak(_) => EventClass::Singleton,
            JotEvent::Start(c, _) => EventClass::Start(ContainerKind { block: c.is_block(), code_language: (if let JotContainer::CodeBlock { language } = &c { Some(language.to_string()) } else { None }) }),
            JotEvent::End(c) => EventClass::End(ContainerKind { block: c.is_block(), code_language: (if let JotContainer::CodeBlock { language } = &c { Some(language.to_string()) } else { None }) }),
            JotEvent::Str(s) => EventClass::Text(s.to_string()),
            _ => EventClass::Inline,
        }),
        start: sp.start,
        end: sp.end,
    }).collect()
}

/// Relies on str::get: the characters of the byte range `start..end` of the
/// text, or nothing when the range is out of bounds or not char-aligned.
#[verifier::external_body]
fn slice_byte_range(source: &str, start: usize, end: usize) -> (r: String)
    ensures
        r@ == byte_range_chars(source@, start as int, end as int),
{
    match source.get(start..end) {
        Some(t) => t.to_owned(),
        None => String::new(),
    }
}

pub open spec fn spec_union_range(lhs: (usize, usize), rhs: (usize, usize)) -> (usize, usize) {
    (
        (if lhs.0 <= rhs.0 {
            lhs.0
        } else {
            rhs.0
        }),
        (if lhs.1 >= rhs.1 {
            lhs.1
        } else {
            rhs.1
        }),
    )
}

/// The union of two byte ranges: the least start to the greatest end.
pub fn union_range(lhs: (usize, usize), rhs: (usize, usize)) -> (r: (usize, usize))
    ensures
        r == spec_union_range(lhs, rhs),
{
    (
        if lhs.0 <= rhs.0 {
            lhs.0
        } else {
            rhs.0
        },
        if lhs.1 >= rhs.1 {
            lhs.1
        } else {
            rhs.1
        },
    )
}

/// The union of the byte ranges of the events `[s, e)`, for `s < e`.
pub open spec fn spec_group_range(events: Seq<MarkupEvent>, s: int, e: int) -> (usize, usize)
    decreases e - s,
{
    if e <= s + 1 {
        (events[s].start, events[s].end)
    } else {
        spec_union_range(
            spec_group_range(events, s, e - 1),
            (events[e - 1].start, events[e - 1].end),
        )
    }
}

/// Scanning from `i` at nesting depth `depth`: a start of the opener's kind
/// raises the depth, an end of its kind lowers it, every other event passes
/// through; the run ends one past the event that brings the depth to zero,
/// or at the end of the stream.
pub open spec fn spec_scan(events: Seq<MarkupEvent>, open: ContainerKind, i: int, depth: int) -> int
    decreases events.len() - i,
{
    if i < 0 || i >= events.len() {
        events.len() as int
    } else {
        let d = match events[i].class {
            EventClass::Start(k) => if kind_eq(k, open) {
                depth + 1
            } else {
                depth
            },
            EventClass::End(k) => if kind_eq(k, open) {
                depth - 1
            } else {
                depth
            },
            _ => depth,
        };
        if d == 0 {
            i + 1
        } else {
            spec_scan(events, open, i + 1, d)
        }
    }
}

pub proof fn lemma_scan_bounds(events: Seq<MarkupEvent>, open: ContainerKind, i: int, depth: int)
    requires
        0 <= i <= events.len(),
    ensures
        i <= spec_scan(events, open, i, depth) <= events.len(),
    decreases events.len() - i,
{
    if i < events.len() {
        let d = match events[i].class {
            EventClass::Start(k) => if kind_eq(k, open) {
                depth + 1
            } else {
                depth
            },
            EventClass::End(k) => if kind_eq(k, open) {
                depth - 1
            } else {
                depth
            },
            _ => depth,
        };
        if d != 0 {
            lemma_scan_bounds(events, open, i + 1, d);
        }
    }
}

/// Where the top-level group starting at `pos` ends: one event for a
/// singleton, a balanced run for a block-container start, and the whole rest
/// of the stream for anything else, which a well-formed event source does not
/// produce at the top level and which downstream classification treats as
/// prose.
pub open spec fn spec_group_end(events: Seq<MarkupEvent>, pos: int) -> int {
    match events[pos].class {
        EventClass::Singleton => pos + 1,
        EventClass::Start(k) => if k.block {
            spec_scan(events, k, pos + 1, 1)
        } else {
            events.len() as int
        },
        _ => events.len() as int,
    }
}

pub proof fn lemma_group_end_bounds(events: Seq<MarkupEvent>, pos: int)
    requires
        0 <= pos < events.len(),
    ensures
        pos < spec_group_end(events, pos) <= events.len(),
{
    match events[pos].class {
        EventClass::Start(k) => {
            if k.block {
                lemma_scan_bounds(events, k, pos + 1, 1);
            }
        },
        _ => {},
    }
}

fn consume_rest(events: &Vec<MarkupEvent>, pos: usize) -> (r: (usize, usize))
    requires
        pos < events@.len(),
    ensures
        r == spec_group_range(events@, pos as int, events@.len() as int),
{
    let n = events.len();
    let mut i = pos + 1;
    let mut range = (events[pos].start, events[pos].end);
    while i < n
        invariant
            pos + 1 <= i <= n,
            n == events@.len(),
            range == spec_group_range(events@, pos as int, i as int),
        decreases events@.len() - i,
    {
        let ev = &events[i];
        range = union_range(range, (ev.start, ev.end));
        i = i + 1;
    }
    range
}

/// Pulls the top-level group that starts at `pos`: its end index and the
/// union of its events' byte ranges.
pub fn pull_next_top_level_block(events: &Vec<MarkupEvent>, pos: usize) -> (r: (
    usize,
    (usize, usize),
))
    requires
        pos < events@.len(),
    ensures
        r.0 == spec_group_end(events@, pos as int),
        pos < r.0 <= events@.len(),
        r.1 == spec_group_range(events@, pos as int, r.0 as int),
{
    let n = events.len();
    let first_range = (events[pos].start, events[pos].end);
    let is_block_start = match &events[pos].class {
        EventClass::Start(k) => k.block,
        _ => false,
    };
    match &events[pos].class {
        EventClass::Singleton => (pos + 1, first_range),
        EventClass::Start(k) if is_block_start => {
            let ghost ok = events@[pos as int].class->Start_0;
            let open = clone_kind(k);
            proof {
                assert(open == ok);
                lemma_scan_bounds(events@, ok, pos + 1, 1);
            }
            let mut depth: usize = 1;
            let mut i = pos + 1;
            let mut range = first_range;
            while depth > 0 && i < n
                invariant
                    pos + 1 <= i <= n,
                    n == events@.len(),
                    open == ok,
                    depth <= i - pos,
                    range == spec_group_range(events@, pos as int, i as int),
                    spec_scan(events@, ok, pos + 1, 1) == (if depth == 0 {
                        i as int
                    } else {
                        spec_scan(events@, ok, i as int, depth as int)
                    }),
                decreases events@.len() - i,
            {
                let ev = &events[i];
                let ghost d0 = depth as int;
                match &ev.class {
                    EventClass::Start(k2) => {
                        if same_kind(k2, &open) {
                            depth = depth + 1;
                        }
                    },
                    EventClass::End(k2) => {
                        if same_kind(k2, &open) {
                            depth = depth - 1;
                        }
                    },
                    _ => {},
                }
                range = union_range(range, (ev.start, ev.end));
                i = i + 1;
                proof {
                    assert(spec_scan(events@, ok, i - 1, d0) == (if depth == 0 {
                        i as int
                    } else {
                        spec_scan(events@, ok, i as int, depth as int)
                    }));
                    assert(spec_group_range(events@, pos as int, i as int) == spec_union_range(
                        spec_group_range(events@, pos as int, i - 1),
                        (events@[i - 1].start, events@[i - 1].end),
                    ));
                }
            }
            proof {
                if depth > 0 {
                    assert(i == events@.len());
                    assert(spec_scan(events@, ok, i as int, depth as int) == events@.len() as int);
                }
                assert(spec_group_end(events@, pos as int) == spec_scan(events@, ok, pos + 1, 1));
            }
            (i, range)
        },
        _ => {
            let range = consume_rest(events, pos);
            proof {
                assert(spec_group_end(events@, pos as int) == events@.len() as int);
            }
            (n, range)
        },
    }
}

} // verus!

verus! {

pub open spec fn text_content(e: MarkupEvent) -> Seq<char> {
    e.class->Text_0@
}

/// Is the group opened at `s` a fenced code block in the generated language?
pub open spec fn starts_code(events: Seq<MarkupEvent>, s: int) -> bool {
    events[s].class matches EventClass::Start(k) && is_rust_code(k)
}

/// A code group is valid when its last event closes a fenced code block of
/// the generated language and everything between is literal text.
pub open spec fn code_group_valid(events: Seq<MarkupEvent>, s: int, e: int) -> bool {
    &&& events[e - 1].class matches EventClass::End(k) && is_rust_code(k)
    &&& forall|j: int|
        s + 1 <= j < e - 1 ==> (#[trigger] events[j].class) matches EventClass::Text(_)
}

/// The lines of a valid code group: each text event's content, trailing
/// whitespace stripped.
pub open spec fn code_lines(events: Seq<MarkupEvent>, s: int, e: int) -> Seq<Seq<char>> {
    Seq::new((e - s - 2) as nat, |j: int| spec_trim_end(text_content(events[s + 1 + j])))
}

/// The lines of a prose group: the source text under the group's byte range,
/// split into lines, trailing whitespace stripped from each.
pub open spec fn prose_lines(
    events: Seq<MarkupEvent>,
    src: Seq<char>,
    s: int,
    e: int,
) -> Seq<Seq<char>> {
    let range = spec_group_range(events, s, e);
    spec_lines(byte_range_chars(src, range.0 as int, range.1 as int)).map_values(
        |l: Seq<char>| spec_trim_end(l),
    )
}

/// Classification of one top-level group: a fenced code block of the
/// generated language becomes a verbatim block and must be well formed;
/// everything else becomes a literate block taken verbatim from the source.
pub open spec fn spec_classify_group(
    events: Seq<MarkupEvent>,
    src: Seq<char>,
    s: int,
    e: int,
) -> Result<BlockModel, AnalysisError> {
    if starts_code(events, s) {
        if code_group_valid(events, s, e) {
            Ok(BlockModel::Verbatim { lines: code_lines(events, s, e) })
        } else {
            Err(AnalysisError::InvalidDjotBlock)
        }
    } else {
        Ok(BlockModel::Literate { lines: prose_lines(events, src, s, e) })
    }
}

/// The classified top-level groups of the stream, from `pos` on.
pub open spec fn spec_classified(
    events: Seq<MarkupEvent>,
    src: Seq<char>,
    pos: int,
) -> Result<Seq<BlockModel>, AnalysisError>
    decreases events.len() - pos
        when 0 <= pos
        via spec_classified_decreases
{
    if pos >= events.len() {
        Ok(Seq::empty())
    } else {
        let e = spec_group_end(events, pos);
        match spec_classify_group(events, src, pos, e) {
            Err(err) => Err(err),
            Ok(b) => match spec_classified(events, src, e) {
                Err(err) => Err(err),
                Ok(rest) => Ok(seq![b] + rest),
            },
        }
    }
}

#[via_fn]
proof fn spec_classified_decreases(events: Seq<MarkupEvent>, src: Seq<char>, pos: int) {
    if pos < events.len() {
        lemma_group_end_bounds(events, pos);
    }
}

/// The whole analysis of a literate source text: the preamble, its classified
/// top-level groups, the postamble.
pub open spec fn spec_analyze(src: Seq<char>) -> Result<Seq<BlockModel>, AnalysisError> {
    match spec_classified(djot_events(src), src, 0) {
        Err(err) => Err(err),
        Ok(bs) => Ok(seq![BlockModel::Preamble] + bs + seq![BlockModel::Postamble]),
    }
}

/// Parses a literate source text into its top-level blocks.
pub fn analyze_source_blocks(source: &str) -> (r: Result<Vec<SourceToplevelBlock>, AnalysisError>)
    ensures
        ({
            let m = spec_analyze(source@);
            match r {
                Ok(v) => m matches Ok(bs) && blocks_model(v@) == bs,
                Err(e) => m matches Err(me) && me == e && e matches AnalysisError::InvalidDjotBlock,
            }
        }),
{
    let events = parse_events(source);
    let ghost ev = events@;
    let ghost src = source@;
    let mut blocks: Vec<SourceToplevelBlock> = Vec::new();
    blocks.push(SourceToplevelBlock::Preamble { lang: SourceLanguage::Djot });
    let mut pos: usize = 0;
    let n = events.len();
    proof {
        match spec_classified(ev, src, 0) {
            Ok(rest) => {
                assert(blocks_model(blocks@).skip(1) + rest =~= rest);
            },
            Err(_) => {},
        }
    }
    while pos < n
        invariant
            pos <= n,
            n == ev.len(),
            ev == events@,
            ev == djot_events(src),
            src == source@,
            blocks@.len() >= 1,
            blocks@[0] == (SourceToplevelBlock::Preamble { lang: SourceLanguage::Djot }),
            spec_classified(ev, src, 0) == (match spec_classified(ev, src, pos as int) {
                Ok(rest) => Ok::<Seq<BlockModel>, AnalysisError>(
                    blocks_model(blocks@).skip(1) + rest,
                ),
                Err(err) => Err(err),
            }),
        decreases n - pos,
    {
        let pulled = pull_next_top_level_block(&events, pos);
        let end = pulled.0;
        let range = pulled.1;
        proof {
            lemma_group_end_bounds(ev, pos as int);
        }
        let is_code = match &events[pos].class {
            EventClass::Start(k) => kind_is_rust_code(k),
            _ => false,
        };
        let ghost prev = blocks@;
        if is_code {
            let valid_end = match &events[end - 1].class {
                EventClass::End(k) => kind_is_rust_code(k),
                _ => false,
            };
            if !valid_end {
                proof {
                    assert(!code_group_valid(ev, pos as int, end as int));
                    assert(spec_classified(ev, src, pos as int) == Err::<
                        Seq<BlockModel>,
                        AnalysisError,
                    >(AnalysisError::InvalidDjotBlock));
                }
                return Err(AnalysisError::InvalidDjotBlock);
            }
            proof {
                assert(end - pos >= 2);
            }
            let mut lines: Vec<String> = Vec::new();
            let mut j = pos + 1;
            while j < end - 1
                invariant
                    pos + 1 <= j <= end - 1,
                    pos < n,
                    end <= n == ev.len(),
                    ev == events@,
                    ev == djot_events(src),
                    src == source@,
                    end == spec_group_end(ev, pos as int),
                    starts_code(ev, pos as int),
                    spec_classified(ev, src, 0) == (match spec_classified(ev, src, pos as int) {
                        Ok(rest) => Ok::<Seq<BlockModel>, AnalysisError>(
                            blocks_model(blocks@).skip(1) + rest,
                        ),
                        Err(err) => Err(err),
                    }),
                    lines@.len() == j - pos - 1,
                    forall|t: int|
                        pos + 1 <= t < j ==> (#[trigger] ev[t].class) matches EventClass::Text(_),
                    forall|t: int|
                        0 <= t < lines@.len() ==> lines@[t]@ == spec_trim_end(
                            text_content(ev[pos + 1 + t]),
                        ),
                decreases end - j,
            {
                match &events[j].class {
                    EventClass::Text(t) => {
                        lines.push(trim_end_str(t.as_str()));
                    },
                    _ => {
                        proof {
                            assert((ev[j as int].class) matches EventClass::Text(_) == false);
                            assert(!code_group_valid(ev, pos as int, end as int));
                            assert(spec_classify_group(ev, src, pos as int, end as int) == Err::<
                                BlockModel,
                                AnalysisError,
                            >(AnalysisError::InvalidDjotBlock));
                            assert(spec_classified(ev, src, pos as int) == Err::<
                                Seq<BlockModel>,
                                AnalysisError,
                            >(AnalysisError::InvalidDjotBlock));
                        }
                        return Err(AnalysisError::InvalidDjotBlock);
                    },
                }
                j = j + 1;
            }
            let ghost b = BlockModel::Verbatim { lines: code_lines(ev, pos as int, end as int) };
            blocks.push(SourceToplevelBlock::VerbatimBlock { lang: GeneratedLanguage::Rust, lines });
            proof {
                assert(code_group_valid(ev, pos as int, end as int));
                assert(strs_view(blocks@.last()->VerbatimBlock_lines@) =~= code_lines(
                    ev,
                    pos as int,
                    end as int,
                ));
                assert(block_model(blocks@.last()) == b);
                assert(spec_classify_group(ev, src, pos as int, end as int) == Ok::<
                    BlockModel,
                    AnalysisError,
                >(b));
                lemma_step_invariant(ev, src, prev, blocks@, pos as int, end as int, b);
            }
        } else {
            let text = slice_byte_range(source, range.0, range.1);
            let raw = split_lines(text.as_str());
            let mut lines: Vec<String> = Vec::new();
            let mut t: usize = 0;
            while t < raw.len()
                invariant
                    t <= raw@.len(),
                    lines@.len() == t,
                    forall|u: int|
                        0 <= u < t ==> lines@[u]@ == spec_trim_end(#[trigger] raw@[u]@),
                decreases raw@.len() - t,
            {
                lines.push(trim_end_str(raw[t].as_str()));
                t = t + 1;
            }
            let ghost b = BlockModel::Literate {
                lines: prose_lines(ev, src, pos as int, end as int),
            };
            blocks.push(SourceToplevelBlock::LiterateBlock { lines });
            proof {
                assert(!starts_code(ev, pos as int));
                assert(strs_view(raw@) == spec_lines(
                    byte_range_chars(
                        src,
                        spec_group_range(ev, pos as int, end as int).0 as int,
                        spec_group_range(ev, pos as int, end as int).1 as int,
                    ),
                ));
                assert(strs_view(blocks@.last()->LiterateBlock_lines@) =~= prose_lines(
                    ev,
                    src,
                    pos as int,
                    end as int,
                )) by {
                    assert forall|u: int|
                        0 <= u < strs_view(blocks@.last()->LiterateBlock_lines@).len()
                        implies strs_view(blocks@.last()->LiterateBlock_lines@)[u] == prose_lines(
                        ev,
                        src,
                        pos as int,
                        end as int,
                    )[u] by {
                        assert(strs_view(raw@)[u] == raw@[u]@);
                    }
                }
                assert(block_model(blocks@.last()) == b);
                assert(spec_classify_group(ev, src, pos as int, end as int) == Ok::<
                    BlockModel,
                    AnalysisError,
                >(b));
                lemma_step_invariant(ev, src, prev, blocks@, pos as int, end as int, b);
            }
        }
        pos = end;
    }
    let ghost pre = blocks@;
    blocks.push(SourceToplevelBlock::Postamble);
    proof {
        assert(spec_classified(ev, src, pos as int) == Ok::<Seq<BlockModel>, AnalysisError>(
            Seq::empty(),
        ));
        assert(blocks@.drop_last() =~= pre);
        let mid = blocks_model(blocks@.drop_last()).skip(1);
        assert(blocks_model(pre).skip(1) + Seq::<BlockModel>::empty() =~= mid);
        assert(spec_classified(ev, src, 0) == Ok::<Seq<BlockModel>, AnalysisError>(mid));
        assert(blocks_model(blocks@) =~= seq![BlockModel::Preamble] + mid + seq![
            BlockModel::Postamble,
        ]) by {
            assert forall|u: int| 0 <= u < blocks@.len() implies blocks_model(blocks@)[u] == (
            seq![BlockModel::Preamble] + mid + seq![BlockModel::Postamble])[u] by {
                assert(blocks_model(blocks@)[u] == block_model(blocks@[u]));
                if u < blocks@.len() - 1 {
                    assert(blocks@[u] == blocks@.drop_last()[u]);
                    assert(blocks_model(blocks@.drop_last())[u] == block_model(
                        blocks@.drop_last()[u],
                    ));
                    if u > 0 {
                        assert(mid[u - 1] == blocks_model(blocks@.drop_last())[u]);
                    }
                } else {
                    assert(blocks@[u] == blocks@.last());
                }
            }
        }
    }
    Ok(blocks)
}

/// One step of the analysis loop: a classified group extends the collected
/// prefix.
proof fn lemma_step_invariant(
    ev: Seq<MarkupEvent>,
    src: Seq<char>,
    prev: Seq<SourceToplevelBlock>,
    cur: Seq<SourceToplevelBlock>,
    pos: int,
    end: int,
    b: BlockModel,
)
    requires
        0 <= pos < ev.len(),
        end == spec_group_end(ev, pos),
        spec_classify_group(ev, src, pos, end) == Ok::<BlockModel, AnalysisError>(b),
        cur == prev.push(cur.last()),
        cur.len() == prev.len() + 1,
        prev.len() >= 1,
        block_model(cur.last()) == b,
        spec_classified(ev, src, 0) == (match spec_classified(ev, src, pos) {
            Ok(rest) => Ok::<Seq<BlockModel>, AnalysisError>(blocks_model(prev).skip(1) + rest),
            Err(err) => Err::<Seq<BlockModel>, AnalysisError>(err),
        }),
    ensures
        spec_classified(ev, src, 0) == (match spec_classified(ev, src, end) {
            Ok(rest) => Ok::<Seq<BlockModel>, AnalysisError>(blocks_model(cur).skip(1) + rest),
            Err(err) => Err::<Seq<BlockModel>, AnalysisError>(err),
        }),
{
    lemma_group_end_bounds(ev, pos);
    match spec_classified(ev, src, end) {
        Err(err) => {
            assert(spec_classified(ev, src, pos) == Err::<Seq<BlockModel>, AnalysisError>(err));
        },
        Ok(rest) => {
            assert(spec_classified(ev, src, pos) == Ok::<Seq<BlockModel>, AnalysisError>(
                seq![b] + rest,
            ));
            assert(blocks_model(prev).skip(1) + (seq![b] + rest) =~= blocks_model(cur).skip(1)
                + rest) by {
                assert(blocks_model(cur).len() == cur.len());
                assert forall|u: int|
                    0 <= u < blocks_model(cur).skip(1).len() implies blocks_model(cur).skip(1)[u]
                    == (blocks_model(prev).skip(1) + seq![b])[u] by {
                    assert(blocks_model(cur)[u + 1] == block_model(cur[u + 1]));
                    if u + 1 < prev.len() {
                        assert(cur[u + 1] == prev[u + 1]);
                        assert(blocks_model(prev)[u + 1] == block_model(prev[u + 1]));
                    } else {
                        assert(cur[u + 1] == cur.last());
                    }
                }
                assert(blocks_model(cur).skip(1) =~= blocks_model(prev).skip(1) + seq![b]);
            }
        },
    }
}

} // verus!

verus! {

/// A prose line as it appears in the generated file: behind the fixed
/// two-character comment marker and a space.
pub open spec fn spec_comment(l: Seq<char>) -> Seq<char> {
    "// "@ + l
}

/// What one block becomes in the generated file: verbatim code unchanged,
/// prose commented line by line, the preamble and postamble carried over.
pub open spec fn spec_convert_block(b: BlockModel) -> GroupModel {
    match b {
        BlockModel::Preamble => GroupModel::Preamble,
        BlockModel::Verbatim { lines } => GroupModel::Code { lines },
        BlockModel::Literate { lines } => GroupModel::Code {
            lines: lines.map_values(|l: Seq<char>| spec_comment(l)),
        },
        BlockModel::Postamble => GroupModel::Postamble,
    }
}

pub open spec fn spec_convert_blocks(bs: Seq<BlockModel>) -> Seq<GroupModel> {
    bs.map_values(|b: BlockModel| spec_convert_block(b))
}

fn comment_line(l: &String) -> (r: String)
    ensures
        r@ == spec_comment(l@),
{
    let p = "// ".to_owned();
    p.concat(l.as_str())
}

/// Maps each top-level block to one generated line group; blocks never merge
/// or split.
pub fn convert_source_blocks(blocks: Vec<SourceToplevelBlock>) -> (r: Result<
    Vec<GeneratedLineGroup>,
    ConversionError,
>)
    ensures
        r matches Ok(g) && groups_model(g@) == spec_convert_blocks(blocks_model(blocks@)),
{
    let ghost bs = blocks_model(blocks@);
    let mut generated: Vec<GeneratedLineGroup> = Vec::new();
    let n = blocks.len();
    let mut i: usize = 0;
    while i < n
        invariant
            i <= n,
            n == blocks@.len(),
            bs == blocks_model(blocks@),
            generated@.len() == i,
            forall|k: int|
                0 <= k < i ==> groups_model(generated@)[k] == spec_convert_block(#[trigger] bs[k]),
        decreases n - i,
    {
        let ghost prev = generated@;
        match &blocks[i] {
            SourceToplevelBlock::Preamble { lang } => {
                generated.push(GeneratedLineGroup::Preamble);
            },
            SourceToplevelBlock::VerbatimBlock { lang, lines } => {
                let owned = clone_lines(lines);
                generated.push(GeneratedLineGroup::CodeLineGroup(owned));
            },
            SourceToplevelBlock::LiterateBlock { lines } => {
                let mut commented: Vec<String> = Vec::new();
                let mut j: usize = 0;
                while j < lines.len()
                    invariant
                        j <= lines@.len(),
                        commented@.len() == j,
                        forall|t: int|
                            0 <= t < j ==> commented@[t]@ == spec_comment(#[trigger] lines@[t]@),
                    decreases lines@.len() - j,
                {
                    commented.push(comment_line(&lines[j]));
                    j = j + 1;
                }
                proof {
                    assert(strs_view(commented@) =~= strs_view(lines@).map_values(
                        |l: Seq<char>| spec_comment(l),
                    ));
                }
                generated.push(GeneratedLineGroup::CodeLineGroup(commented));
            },
            SourceToplevelBlock::Postamble => {
                generated.push(
                    GeneratedLineGroup::Postamble { source_lang: SourceLanguage::Djot },
                );
            },
        }
        proof {
            assert(bs[i as int] == block_model(blocks@[i as int]));
            assert forall|k: int| 0 <= k < i + 1 implies groups_model(generated@)[k]
                == spec_convert_block(#[trigger] bs[k]) by {
                assert(groups_model(generated@)[k] == crate::tangle_and_untangle::group_model(
                    generated@[k],
                ));
                if k < i as int {
                    assert(generated@[k] == prev[k]);
                    assert(groups_model(prev)[k] == crate::tangle_and_untangle::group_model(
                        prev[k],
                    ));
                } else {
                    assert(generated@[k] == generated@.last());
                }
            }
        }
        i = i + 1;
    }
    proof {
        assert(groups_model(generated@) =~= spec_convert_blocks(bs));
    }
    Ok(generated)
}

/// The text of the generated file: each code group's lines, the marker line
/// for the postamble, one blank line between emitted groups, nothing for the
/// preamble.
pub open spec fn spec_generated_text(gs: Seq<GroupModel>, first: bool) -> Seq<char>
    decreases gs.len(),
{
    if gs.len() == 0 {
        Seq::empty()
    } else {
        match gs[0] {
            GroupModel::Preamble => spec_generated_text(gs.drop_first(), first),
            GroupModel::Code { lines } => sep(first) + spec_line_block(lines)
                + spec_generated_text(gs.drop_first(), false),
            GroupModel::Postamble => sep(first) + spec_signature() + seq!['\n']
                + spec_generated_text(gs.drop_first(), false),
        }
    }
}

/// Serializes the line groups of a generated file.
pub fn generate_output(generated: Vec<GeneratedLineGroup>) -> (r: String)
    ensures
        r@ == spec_generated_text(groups_model(generated@), true),
{
    let ghost model = groups_model(generated@);
    let ghost total = spec_generated_text(model, true);
    let mut out = String::new();
    let mut first = true;
    let mut i: usize = 0;
    proof {
        assert(model.skip(0) =~= model);
        assert(out@ + spec_generated_text(model, true) =~= total);
    }
    while i < generated.len()
        invariant
            i <= generated@.len(),
            model == groups_model(generated@),
            model.len() == generated@.len(),
            total == spec_generated_text(model, true),
            total == out@ + spec_generated_text(model.skip(i as int), first),
        decreases generated@.len() - i,
    {
        let ghost out0 = out@;
        let ghost first0 = first;
        proof {
            assert(model[i as int] == crate::tangle_and_untangle::group_model(
                generated@[i as int],
            ));
            assert(model.skip(i as int)[0] == model[i as int]);
            assert(model.skip(i as int).drop_first() =~= model.skip(i + 1));
            reveal_strlit("\n");
            assert("\n"@ =~= seq!['\n']);
        }
        match &generated[i] {
            GeneratedLineGroup::Preamble => {
                proof {
                    assert(spec_generated_text(model.skip(i as int), first) == spec_generated_text(
                        model.skip(i + 1),
                        first,
                    ));
                }
            },
            GeneratedLineGroup::CodeLineGroup(lines) => {
                let ghost sv = strs_view(lines@);
                proof {
                    assert(model[i as int] matches GroupModel::Code { lines: l } && l == sv);
                    assert(spec_generated_text(model.skip(i as int), first) == sep(first)
                        + spec_line_block(sv) + spec_generated_text(model.skip(i + 1), false));
                }
                if !first {
                    out.append("\n");
                }
                first = false;
                let ghost base = out@;
                proof {
                    assert(base =~= out0 + sep(first0));
                    assert(sv.skip(0) =~= sv);
                }
                let mut j: usize = 0;
                while j < lines.len()
                    invariant
                        j <= lines@.len(),
                        sv == strs_view(lines@),
                        base + spec_line_block(sv) == out@ + spec_line_block(sv.skip(j as int)),
                    decreases lines@.len() - j,
                {
                    proof {
                        assert(sv[j as int] == lines@[j as int]@);
                        assert(sv.skip(j as int)[0] == sv[j as int]);
                        assert(sv.skip(j as int).drop_first() =~= sv.skip(j + 1));
                        reveal_strlit("\n");
                        assert("\n"@ =~= seq!['\n']);
                    }
                    let ghost before = out@;
                    out.append(lines[j].as_str());
                    out.append("\n");
                    proof {
                        assert(out@ =~= before + sv[j as int] + seq!['\n']);
                        assert(base + spec_line_block(sv) =~= out@ + spec_line_block(
                            sv.skip(j + 1),
                        ));
                    }
                    j = j + 1;
                }
                proof {
                    assert(spec_line_block(sv.skip(lines@.len() as int)) =~= Seq::<char>::empty());
                    assert(out@ =~= base + spec_line_block(sv));
                    assert(out0 + spec_generated_text(model.skip(i as int), first0) =~= out@
                        + spec_generated_text(model.skip(i + 1), false));
                }
            },
            GeneratedLineGroup::Postamble { source_lang } => {
                proof {
                    assert(spec_generated_text(model.skip(i as int), first) == sep(first)
                        + spec_signature() + seq!['\n'] + spec_generated_text(
                        model.skip(i + 1),
                        false,
                    ));
                }
                if !first {
                    out.append("\n");
                }
                first = false;
                out.append(generated_signature());
                out.append("\n");
                proof {
                    assert(out@ =~= out0 + sep(first0) + spec_signature() + seq!['\n']);
                    assert(out0 + spec_generated_text(model.skip(i as int), first0) =~= out@
                        + spec_generated_text(model.skip(i + 1), false));
                }
            },
        }
        i = i + 1;
    }
    proof {
        assert(spec_generated_text(model.skip(i as int), first) =~= Seq::<char>::empty());
        assert(out@ =~= total);
    }
    out
}

/// Tangle output always ends with the exact marker line: when the group
/// sequence ends with the postamble, the generated text ends with the marker
/// followed by a newline.
pub proof fn lemma_generated_text_ends_with_marker(gs: Seq<GroupModel>, first: bool)
    requires
        gs.len() > 0,
        gs.last() is Postamble,
    ensures
        ({
            let t = spec_generated_text(gs, first);
            let tail = spec_signature() + seq!['\n'];
            t.len() >= tail.len() && t.skip(t.len() - tail.len()) == tail
        }),
    decreases gs.len(),
{
    let t = spec_generated_text(gs, first);
    let tail = spec_signature() + seq!['\n'];
    if gs.len() == 1 {
        assert(gs[0] is Postamble);
        assert(spec_generated_text(gs.drop_first(), false) =~= Seq::<char>::empty());
        assert(t =~= sep(first) + tail);
        assert(t.skip(t.len() - tail.len()) =~= tail);
    } else {
        assert(gs.drop_first().last() == gs.last());
        match gs[0] {
            GroupModel::Preamble => {
                lemma_generated_text_ends_with_marker(gs.drop_first(), first);
            },
            GroupModel::Code { lines } => {
                lemma_generated_text_ends_with_marker(gs.drop_first(), false);
                let rest = spec_generated_text(gs.drop_first(), false);
                assert(t.skip(t.len() - tail.len()) =~= rest.skip(rest.len() - tail.len()));
            },
            GroupModel::Postamble => {
                lemma_generated_text_ends_with_marker(gs.drop_first(), false);
                let rest = spec_generated_text(gs.drop_first(), false);
                assert(t.skip(t.len() - tail.len()) =~= rest.skip(rest.len() - tail.len()));
            },
        }
    }
}

/// The generated text of any block sequence that analysis produced ends with
/// the exact marker line: analysis always closes the sequence with the
/// postamble, and conversion carries the postamble over unchanged.
pub proof fn lemma_tangle_output_ends_with_marker(blocks: Seq<BlockModel>, first: bool)
    requires
        blocks.len() > 0,
        blocks.last() is Postamble,
    ensures
        ({
            let t = spec_generated_text(spec_convert_blocks(blocks), first);
            let tail = spec_signature() + seq!['\n'];
            t.len() >= tail.len() && t.skip(t.len() - tail.len()) == tail
        }),
{
    let gs = spec_convert_blocks(blocks);
    assert(gs.last() == spec_convert_block(blocks.last()));
    lemma_generated_text_ends_with_marker(gs, first);
}

/// Nested-block segmentation: a block container that opens, holds a container
/// of a different kind, and closes is one top-level group of exactly those
/// four events; the inner container does not close the outer one early.
pub proof fn lemma_nested_block_single_group(
    events: Seq<MarkupEvent>,
    outer: ContainerKind,
    inner: ContainerKind,
)
    requires
        events.len() >= 4,
        outer.block,
        !kind_eq(inner, outer),
        events[0].class == EventClass::Start(outer),
        events[1].class == EventClass::Start(inner),
        events[2].class == EventClass::End(inner),
        events[3].class == EventClass::End(outer),
    ensures
        spec_group_end(events, 0) == 4,
{
    assert(kind_eq(outer, outer));
    assert(spec_scan(events, outer, 1, 1) == spec_scan(events, outer, 2, 1));
    assert(spec_scan(events, outer, 2, 1) == spec_scan(events, outer, 3, 1));
    assert(spec_scan(events, outer, 3, 1) == 4);
}

} // verus!
