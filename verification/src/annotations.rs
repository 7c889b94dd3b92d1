//! Per-line annotation fragments, as handed over by the upstream location
//! resolver: each fragment belongs to one line of one file and is either a
//! complete single-line annotation or one edge of a multi-line annotation.

use vstd::prelude::*;
use crate::level::Level;
use crate::source_map::SourceFile;

verus! {

/// What one fragment covers on its line. Columns are 0-based character
/// positions (not byte positions) on that line.
#[derive(Clone, Copy, Debug, PartialEq, Eq, Structural)]
pub enum AnnotationKind {
    /// A complete annotation on a single line.
    Singleline { start_col: usize, end_col: usize },
    /// The opening edge of an annotation continuing past this line.
    MultilineStart { start_col: usize },
    /// A line fully covered by a continuing multi-line annotation.
    MultilineLine,
    /// The closing edge of a multi-line annotation.
    MultilineEnd { end_col: usize },
}

/// One line's worth of a (possibly multi-line) annotation.
pub struct Annotation {
    pub kind: AnnotationKind,
    /// Whether this fragment marks the main point of interest of its line.
    pub is_primary: bool,
    /// An optional inline label.
    pub label: Option<String>,
    /// An optional severity override; without one, the surrounding
    /// diagnostic's severity applies.
    pub level: Option<Level>,
}

/// One annotated line: a 1-based line index and the fragments on it, in
/// arrival order.
pub struct Line {
    pub line_index: usize,
    pub annotations: Vec<Annotation>,
}

/// All annotated lines of one file, sorted by ascending line index. The
/// file is named by its stable identifier in the source map.
pub struct FileWithAnnotatedLines {
    pub file: usize,
    pub lines: Vec<Line>,
}

/// The mathematical image of a [`Line`]: the same line index and fragment
/// list, free of the containing vector.
pub ghost struct SpecLine {
    pub line_index: usize,
    pub annotations: Seq<Annotation>,
}

pub open spec fn line_view(l: Line) -> SpecLine {
    SpecLine { line_index: l.line_index, annotations: l.annotations@ }
}

pub open spec fn lines_view(ls: Seq<Line>) -> Seq<SpecLine> {
    ls.map_values(|l: Line| line_view(l))
}

/// A fragment joined with the line it belongs to: the flattened view of a
/// file's per-line fragment lists.
pub ghost struct Fragment {
    pub line: usize,
    pub ann: Annotation,
}

pub open spec fn line_fragments(l: SpecLine) -> Seq<Fragment> {
    l.annotations.map(|i: int, a: Annotation| Fragment { line: l.line_index, ann: a })
}

pub open spec fn fragments_of(lines: Seq<SpecLine>) -> Seq<Fragment>
    decreases lines.len(),
{
    if lines.len() == 0 {
        Seq::empty()
    } else {
        line_fragments(lines[0]) + fragments_of(lines.drop_first())
    }
}

pub proof fn lemma_fragments_of_concat(a: Seq<SpecLine>, b: Seq<SpecLine>)
    ensures
        fragments_of(a + b) == fragments_of(a) + fragments_of(b),
    decreases a.len(),
{
    if a.len() == 0 {
        assert(a + b =~= b);
        assert(fragments_of(a) + fragments_of(b) =~= fragments_of(b));
    } else {
        lemma_fragments_of_concat(a.drop_first(), b);
        assert((a + b).drop_first() =~= a.drop_first() + b);
        assert(fragments_of(a + b) =~= fragments_of(a) + fragments_of(b));
    }
}

/// Lines are 1-based, lie within the file, and arrive sorted by ascending
/// line index.
pub open spec fn lines_wf(lines: Seq<SpecLine>, file: SourceFile) -> bool {
    &&& forall|i: int|
        0 <= i < lines.len() ==> 1 <= (#[trigger] lines[i]).line_index <= file.lines@.len()
    &&& forall|i: int, j: int|
        0 <= i <= j < lines.len() ==> lines[i].line_index <= lines[j].line_index
}

/// The fragment discipline the upstream resolver guarantees, checked
/// against an initially open multi-line start at line `open0` (if any):
/// single-line columns are ordered, a multi-line start never opens over
/// another open start, and a multi-line end always closes a start opened
/// on an earlier line. Violations are defects of the resolver, not inputs
/// the core accepts.
pub open spec fn frags_ok(frags: Seq<Fragment>, open0: Option<usize>) -> bool
    decreases frags.len(),
{
    if frags.len() == 0 {
        true
    } else {
        let f = frags[0];
        match f.ann.kind {
            AnnotationKind::Singleline { start_col, end_col } => {
                &&& start_col <= end_col
                &&& frags_ok(frags.drop_first(), open0)
            },
            AnnotationKind::MultilineStart { start_col } => {
                &&& open0 is None
                &&& frags_ok(frags.drop_first(), Some(f.line))
            },
            AnnotationKind::MultilineLine => frags_ok(frags.drop_first(), open0),
            AnnotationKind::MultilineEnd { end_col } => {
                &&& open0 matches Some(ol) && ol < f.line
                &&& frags_ok(frags.drop_first(), None)
            },
        }
    }
}

/// Unfolds [`frags_ok`] one fragment at a time: the conditions the first
/// fragment satisfies, and the discipline of the rest.
pub proof fn lemma_frags_ok_step(frags: Seq<Fragment>, open0: Option<usize>)
    requires
        frags.len() > 0,
        frags_ok(frags, open0),
    ensures
        match frags[0].ann.kind {
            AnnotationKind::Singleline { start_col, end_col } => start_col <= end_col
                && frags_ok(frags.drop_first(), open0),
            AnnotationKind::MultilineStart { start_col } => open0 is None && frags_ok(
                frags.drop_first(),
                Some(frags[0].line),
            ),
            AnnotationKind::MultilineLine => frags_ok(frags.drop_first(), open0),
            AnnotationKind::MultilineEnd { end_col } => (open0 matches Some(ol) && ol
                < frags[0].line) && frags_ok(frags.drop_first(), None),
        },
{
}

} // verus!
