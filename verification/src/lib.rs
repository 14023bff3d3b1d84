use vstd::prelude::*;

pub mod roundtrip;
pub mod tangle;
pub mod tangle_and_untangle;
pub mod text;
pub mod untangle;

use crate::text::{spec_ends_with, str_ends_with};

verus! {

/// Role of a file in a conversion, inferred from its name.
#[derive(Clone, Copy, Debug, PartialEq, Eq, Structural)]
pub enum FileType {
    SourceDjot,
    GeneratedMarkdown,
    GeneratedRustModule,
}

/// The requested direction: extract source code, or render a document.
#[derive(Clone, Copy, Debug, PartialEq, Eq, Structural)]
pub enum TangleOrWeave {
    Tangle,
    Weave,
}

/// Any error of a single conversion run. All are terminal: nothing is
/// retried.
#[derive(Debug)]
pub enum TangleUntangleError {
    UnrecognizedFileExt,
    InputFileIsNotNewer,
    Io(std::io::Error),
    TangleUntangleAnalysisError(crate::tangle_and_untangle::AnalysisError),
    TangleUntangleConversionError(crate::tangle_and_untangle::ConversionError),
    TangleUntangleGenerationError(crate::tangle_and_untangle::GenerationError),
}

/// Index right after the last path separator of `p`; 0 when there is none.
pub open spec fn spec_name_start(p: Seq<char>) -> int
    decreases p.len(),
{
    if p.len() == 0 {
        0
    } else if p.last() == '/' {
        p.len() as int
    } else {
        spec_name_start(p.drop_last())
    }
}

/// The length of the file name: what follows the last path separator.
pub open spec fn spec_name_len(p: Seq<char>) -> int {
    p.len() - spec_name_start(p)
}

fn name_start(p: &str) -> (r: usize)
    ensures
        r == spec_name_start(p@),
        r <= p@.len(),
{
    let n = p.unicode_len();
    let mut i = n;
    proof {
        assert(p@.take(n as int) =~= p@);
    }
    while i > 0 && p.get_char(i - 1) != '/'
        invariant
            i <= n,
            n == p@.len(),
            spec_name_start(p@) == spec_name_start(p@.take(i as int)),
        decreases i,
    {
        proof {
            assert(p@.take(i as int).last() == p@[i - 1]);
            assert(p@.take(i as int).drop_last() =~= p@.take(i - 1));
        }
        i = i - 1;
    }
    proof {
        if i > 0 {
            assert(p@.take(i as int).last() == p@[i - 1]);
            assert(spec_name_start(p@.take(i as int)) == i);
        }
    }
    i
}

/// Does the path name a literate document: its file name carries the two-part
/// literate suffix with a nonempty stem before it?
pub open spec fn matches_lit_djot(p: Seq<char>) -> bool {
    spec_ends_with(p, ".lit.djot"@) && spec_name_len(p) > ".lit.djot"@.len()
}

/// Does the path's file name carry the one-part extension `dot_ext` (given
/// with its dot), with a nonempty stem before it?
pub open spec fn matches_ext(p: Seq<char>, dot_ext: Seq<char>) -> bool {
    spec_ends_with(p, dot_ext) && spec_name_len(p) > dot_ext.len()
}

/// `p` with its last `strip` characters replaced by `add`.
pub open spec fn spec_replace_suffix(p: Seq<char>, strip: int, add: Seq<char>) -> Seq<char> {
    p.take(p.len() - strip) + add
}

fn replace_suffix(p: &str, strip: usize, add: &str) -> (r: String)
    requires
        strip <= p@.len(),
    ensures
        r@ == spec_replace_suffix(p@, strip as int, add@),
{
    let n = p.unicode_len();
    let stem = p.substring_char(0, n - strip).to_owned();
    proof {
        assert(p@.subrange(0, n - strip) =~= p@.take(p@.len() - strip));
    }
    stem.concat(add)
}

/// Infers from the input's filename which conversion the run performs and
/// where its output goes: a literate document maps to the generated module
/// (tangle) or the generated document (weave); a generated file maps back to
/// the literate document; any other name is unrecognized.
pub fn determine_filetype_and_dest(input: &str, mode: TangleOrWeave) -> (r: Option<
    (FileType, String, FileType),
>)
    ensures
        matches_lit_djot(input@) ==> (match mode {
            TangleOrWeave::Tangle => (r matches Some((FileType::SourceDjot, d,
            FileType::GeneratedRustModule)) && d@ == spec_replace_suffix(
                input@,
                ".lit.djot"@.len() as int,
                ".rs"@,
            )),
            TangleOrWeave::Weave => (r matches Some((FileType::SourceDjot, d,
            FileType::GeneratedMarkdown)) && d@ == spec_replace_suffix(
                input@,
                ".lit.djot"@.len() as int,
                ".md"@,
            )),
        }),
        !matches_lit_djot(input@) && mode is Tangle && matches_ext(input@, ".rs"@)
            ==> (r matches Some((FileType::GeneratedRustModule, d, FileType::SourceDjot)) && d@
            == spec_replace_suffix(input@, ".rs"@.len() as int, ".lit.djot"@)),
        !matches_lit_djot(input@) && mode is Weave && matches_ext(input@, ".md"@)
            ==> (r matches Some((FileType::GeneratedMarkdown, d, FileType::SourceDjot)) && d@
            == spec_replace_suffix(input@, ".md"@.len() as int, ".lit.djot"@)),
        !matches_lit_djot(input@) && !(mode is Tangle && matches_ext(input@, ".rs"@)) && !(
        mode is Weave && matches_ext(input@, ".md"@)) ==> r is None,
{
    let n = input.unicode_len();
    let ns = name_start(input);
    let lit_suffix = ".lit.djot";
    let lit_len = lit_suffix.unicode_len();
    if str_ends_with(input, lit_suffix) && n - ns > lit_len {
        match mode {
            TangleOrWeave::Tangle => {
                let dest = replace_suffix(input, lit_len, ".rs");
                Some((FileType::SourceDjot, dest, FileType::GeneratedRustModule))
            },
            TangleOrWeave::Weave => {
                let dest = replace_suffix(input, lit_len, ".md");
                Some((FileType::SourceDjot, dest, FileType::GeneratedMarkdown))
            },
        }
    } else {
        match mode {
            TangleOrWeave::Tangle => {
                let rs_suffix = ".rs";
                let rs_len = rs_suffix.unicode_len();
                if str_ends_with(input, rs_suffix) && n - ns > rs_len {
                    let dest = replace_suffix(input, rs_len, ".lit.djot");
                    Some((FileType::GeneratedRustModule, dest, FileType::SourceDjot))
                } else {
                    None
                }
            },
            TangleOrWeave::Weave => {
                let md_suffix = ".md";
                let md_len = md_suffix.unicode_len();
                if str_ends_with(input, md_suffix) && n - ns > md_len {
                    let dest = replace_suffix(input, md_len, ".lit.djot");
                    Some((FileType::GeneratedMarkdown, dest, FileType::SourceDjot))
                } else {
                    None
                }
            },
        }
    }
}

/// A file modification time: seconds and nanoseconds on the system clock's
/// timeline.
#[derive(Clone, Copy, Debug, PartialEq, Eq, Structural)]
pub struct ModTime {
    pub secs: i64,
    pub nanos: u32,
}

/// Is `a` strictly later than `b`?
pub open spec fn spec_time_newer(a: ModTime, b: ModTime) -> bool {
    a.secs > b.secs || (a.secs == b.secs && a.nanos > b.nanos)
}

/// The freshness gate: the time to stamp on the output, or nothing when the
/// run should be a no-op. The conversion proceeds when the output does not
/// exist, when the input is strictly newer than the output, or when the
/// caller forces it; the output is then stamped with the input's time.
pub open spec fn spec_freshness(
    input_modified: ModTime,
    output_modified: Option<ModTime>,
    force: bool,
) -> Option<ModTime> {
    match output_modified {
        None => Some(input_modified),
        Some(out) => if spec_time_newer(input_modified, out) || force {
            Some(input_modified)
        } else {
            None
        },
    }
}

pub fn ensure_input_is_newer(
    input_modified: ModTime,
    output_modified: Option<ModTime>,
    force: bool,
) -> (r: Option<ModTime>)
    ensures
        r == spec_freshness(input_modified, output_modified, force),
{
    match output_modified {
        Option::None => Some(input_modified),
        Option::Some(out) => {
            let newer = input_modified.secs > out.secs || (input_modified.secs == out.secs
                && input_modified.nanos > out.nanos);
            if newer || force {
                Some(input_modified)
            } else {
                None
            }
        },
    }
}

/// Freshness gate: tangling twice in succession, with nothing touched in
/// between and no force flag, leaves the second invocation facing equal
/// input and output times, so nothing is written the second time.
pub proof fn lemma_freshness_idempotent(t: ModTime)
    ensures
        spec_freshness(t, Some(t), false) is None,
{
}

/// The force flag bypasses the freshness gate unconditionally, even when the
/// output is newer than the input.
pub proof fn lemma_force_bypasses_gate(input_modified: ModTime, output_modified: Option<ModTime>)
    ensures
        spec_freshness(input_modified, output_modified, true) == Some(input_modified),
{
}

} // verus!
