//! Reconstruction of annotations from per-line fragments, and the
//! renderer-facing snippet and message records.
//!
//! A multi-line annotation arrives split into a start fragment, middle
//! fragments and an end fragment; this module merges the pieces back into
//! one annotation spanning from the start fragment's column to the end
//! fragment's column, converting character columns to byte offsets
//! relative to the excerpt.

use vstd::prelude::*;
use crate::annotations::{
    Annotation, AnnotationKind, Fragment, Line, SpecLine, fragments_of, frags_ok, line_fragments,
    line_view, lines_view, lines_wf,
};
use crate::level::{Level, RenderLevel, spec_render_level, to_render_level};
use crate::source_map::{
    SourceFile, SourceMap, char_to_byte, char_to_byte_pos, excerpt, lemma_char_to_byte_bounds,
    lemma_char_to_byte_mono, lemma_line_start_mono, lemma_utf8_len_nonneg, line_position, utf8_len,
};
use crate::annotations::{lemma_fragments_of_concat, lemma_frags_ok_step};

verus! {

/// A fully reconstructed annotation: a byte range into its snippet's
/// excerpt text, a label, and a severity.
pub struct OwnedAnnotation {
    /// Byte offset, relative to the excerpt, where the annotation starts.
    pub start: usize,
    /// Byte offset, relative to the excerpt, where the annotation ends.
    pub end: usize,
    pub label: String,
    pub level: RenderLevel,
}

/// The mathematical image of an [`OwnedAnnotation`].
pub ghost struct SpecAnnotation {
    pub start: int,
    pub end: int,
    pub label: Seq<char>,
    pub level: RenderLevel,
}

impl View for OwnedAnnotation {
    type V = SpecAnnotation;

    open spec fn view(&self) -> SpecAnnotation {
        SpecAnnotation {
            start: self.start as int,
            end: self.end as int,
            label: self.label@,
            level: self.level,
        }
    }
}

/// One file's snippet: its origin name, the excerpted lines, the 1-based
/// number of the first excerpted line, a fold hint for the renderer, and
/// the reconstructed annotations addressing the excerpt by byte range.
pub struct OwnedSnippet {
    pub origin: String,
    /// The excerpt, line by line; its joined text (lines separated by
    /// single newline bytes) is what the annotation byte ranges address.
    pub source: Vec<String>,
    pub line_start: usize,
    pub fold: bool,
    pub annotations: Vec<OwnedAnnotation>,
}

/// A message without a location: the title of a diagnostic, or a footer
/// line for a sub-diagnostic that carries no span.
pub struct OwnedMessage {
    pub id: Option<String>,
    pub label: String,
    pub level: RenderLevel,
}

pub open spec fn opt_label_view(l: Option<String>) -> Option<Seq<char>> {
    match l {
        Some(s) => Some(s@),
        None => None,
    }
}

pub open spec fn label_or_empty(l: Option<Seq<char>>) -> Seq<char> {
    match l {
        Some(s) => s,
        None => Seq::empty(),
    }
}

pub open spec fn opt_or(a: Option<Seq<char>>, b: Option<Seq<char>>) -> Option<Seq<char>> {
    match a {
        Some(s) => Some(s),
        None => b,
    }
}

/// The severity of an annotation: its own override, or the default.
pub open spec fn ann_level(l: Option<Level>, default: Level) -> RenderLevel {
    spec_render_level(
        match l {
            Some(x) => x,
            None => default,
        },
    )
}

/// State of the reconstruction: the open multi-line start (its label and
/// its byte offset), if any, and the annotations emitted so far.
pub ghost struct RecState {
    pub open_ml: Option<(Option<Seq<char>>, int)>,
    pub out: Seq<SpecAnnotation>,
}

pub open spec fn rec_init() -> RecState {
    RecState { open_ml: None, out: Seq::empty() }
}

/// Processes one fragment: a single-line fragment emits one annotation at
/// once; a multi-line start is remembered; a middle line contributes
/// nothing; a multi-line end emits one annotation from the remembered
/// start to its own column, labelled by the start's label if present,
/// else its own, else empty.
pub open spec fn rec_step(
    file: SourceFile,
    base: int,
    default: Level,
    st: RecState,
    f: Fragment,
) -> RecState {
    let line_pos = file.spec_line_start(f.line - 1) - base;
    let text = file.lines@[f.line - 1]@;
    match f.ann.kind {
        AnnotationKind::Singleline { start_col, end_col } => RecState {
            open_ml: st.open_ml,
            out: st.out.push(
                SpecAnnotation {
                    start: line_pos + char_to_byte(text, start_col as int),
                    end: line_pos + char_to_byte(text, end_col as int),
                    label: label_or_empty(opt_label_view(f.ann.label)),
                    level: ann_level(f.ann.level, default),
                },
            ),
        },
        AnnotationKind::MultilineStart { start_col } => RecState {
            open_ml: Some(
                (opt_label_view(f.ann.label), line_pos + char_to_byte(text, start_col as int)),
            ),
            out: st.out,
        },
        AnnotationKind::MultilineLine => st,
        AnnotationKind::MultilineEnd { end_col } => match st.open_ml {
            Some(open) => RecState {
                open_ml: None,
                out: st.out.push(
                    SpecAnnotation {
                        start: open.1,
                        end: line_pos + char_to_byte(text, end_col as int),
                        label: label_or_empty(opt_or(open.0, opt_label_view(f.ann.label))),
                        level: ann_level(f.ann.level, default),
                    },
                ),
            },
            None => st,
        },
    }
}

pub open spec fn rec_fold(
    file: SourceFile,
    base: int,
    default: Level,
    frags: Seq<Fragment>,
) -> RecState
    decreases frags.len(),
{
    if frags.len() == 0 {
        rec_init()
    } else {
        rec_step(file, base, default, rec_fold(file, base, default, frags.drop_last()), frags.last())
    }
}

/// The reconstructed annotations for one file's fragment lists, with byte
/// offsets relative to the excerpt starting at absolute byte offset
/// `base`. Emission follows fragment arrival order, so a multi-line
/// annotation appears at the position of its closing line.
pub open spec fn reconstruct(
    file: SourceFile,
    base: int,
    default: Level,
    lines: Seq<SpecLine>,
) -> Seq<SpecAnnotation> {
    rec_fold(file, base, default, fragments_of(lines)).out
}

/// What `file_to_snippet` promises of its result, given the source map,
/// the file's identifier, the annotated lines and the default severity.
pub open spec fn is_snippet_for(
    s: OwnedSnippet,
    sm: SourceMap,
    file_id: int,
    lines: Seq<SpecLine>,
    default: Level,
) -> bool {
    let file = sm.files@[file_id];
    let first = lines[0].line_index as int;
    let last = lines[lines.len() - 1].line_index as int;
    let base = file.spec_line_start(first - 1);
    &&& s.origin@ == file.name@
    &&& s.line_start == first
    &&& s.fold == true
    &&& s.source@ == file.lines@.subrange(first - 1, last)
    &&& s.annotations@.map_values(|a: OwnedAnnotation| a@) == reconstruct(
        file,
        base,
        default,
        lines,
    )
}

/// Byte length of the joined excerpt of lines `first..=last` (1-based,
/// inclusive): everything before the newline that ends line `last`.
pub open spec fn excerpt_byte_len(file: SourceFile, first: int, last: int) -> int {
    file.spec_line_start(last) - file.spec_line_start(first - 1) - 1
}

/// A single-line fragment reconstructs to exactly one annotation, and its
/// byte range, taken relative to the line's start, cuts out of the line's
/// UTF-8 encoding exactly the characters between the fragment's start and
/// end columns.
pub proof fn lemma_singleline_annotation(
    file: SourceFile,
    base: int,
    default: Level,
    line: usize,
    ann: Annotation,
    start_col: usize,
    end_col: usize,
)
    requires
        ann.kind == (AnnotationKind::Singleline { start_col, end_col }),
        start_col <= end_col,
        end_col as int <= file.lines@[line - 1]@.len(),
    ensures
        ({
            let lines = seq![SpecLine { line_index: line, annotations: seq![ann] }];
            let out = reconstruct(file, base, default, lines);
            let text = file.lines@[line - 1]@;
            let line_pos = file.spec_line_start(line - 1) - base;
            &&& out.len() == 1
            &&& out[0].start == line_pos + char_to_byte(text, start_col as int)
            &&& out[0].end == line_pos + char_to_byte(text, end_col as int)
            &&& out[0].label == label_or_empty(opt_label_view(ann.label))
            &&& out[0].level == ann_level(ann.level, default)
            &&& vstd::utf8::decode_utf8(
                vstd::utf8::encode_utf8(text).subrange(
                    out[0].start - line_pos,
                    out[0].end - line_pos,
                ),
            ) == text.subrange(start_col as int, end_col as int)
        }),
{
    let l = SpecLine { line_index: line, annotations: seq![ann] };
    let lines = seq![l];
    let f = Fragment { line, ann };
    assert(line_fragments(l) =~= seq![f]);
    assert(lines.drop_first() =~= Seq::<SpecLine>::empty());
    assert(fragments_of(Seq::<SpecLine>::empty()) =~= Seq::<Fragment>::empty());
    let frags = fragments_of(lines);
    assert(frags =~= seq![f]);
    assert(frags.drop_last() =~= Seq::<Fragment>::empty());
    assert(rec_fold(file, base, default, Seq::<Fragment>::empty()) == rec_init());
    assert(rec_fold(file, base, default, frags) == rec_step(file, base, default, rec_init(), f));
    let text = file.lines@[line - 1]@;
    crate::source_map::lemma_column_range_decodes(text, start_col as int, end_col as int);
}

/// A multi-line span, split by the resolver into a start fragment on one
/// line and an end fragment on a later line with nothing in between,
/// reconstructs to exactly one annotation: it spans from the start
/// fragment's byte offset to the end fragment's byte offset, its label is
/// the start's if present, else the end's, else empty, and its severity
/// is the end fragment's override or the default.
pub proof fn lemma_multiline_span_reconstruction(
    file: SourceFile,
    base: int,
    default: Level,
    start_line: usize,
    end_line: usize,
    start_ann: Annotation,
    end_ann: Annotation,
    start_col: usize,
    end_col: usize,
)
    requires
        start_ann.kind == (AnnotationKind::MultilineStart { start_col }),
        end_ann.kind == (AnnotationKind::MultilineEnd { end_col }),
    ensures
        ({
            let lines = seq![
                SpecLine { line_index: start_line, annotations: seq![start_ann] },
                SpecLine { line_index: end_line, annotations: seq![end_ann] },
            ];
            let out = reconstruct(file, base, default, lines);
            &&& out.len() == 1
            &&& out[0].start == file.spec_line_start(start_line - 1) - base + char_to_byte(
                file.lines@[start_line - 1]@,
                start_col as int,
            )
            &&& out[0].end == file.spec_line_start(end_line - 1) - base + char_to_byte(
                file.lines@[end_line - 1]@,
                end_col as int,
            )
            &&& out[0].label == label_or_empty(
                opt_or(opt_label_view(start_ann.label), opt_label_view(end_ann.label)),
            )
            &&& out[0].level == ann_level(end_ann.level, default)
        }),
{
    let l1 = SpecLine { line_index: start_line, annotations: seq![start_ann] };
    let l2 = SpecLine { line_index: end_line, annotations: seq![end_ann] };
    let lines = seq![l1, l2];
    let f1 = Fragment { line: start_line, ann: start_ann };
    let f2 = Fragment { line: end_line, ann: end_ann };
    assert(line_fragments(l1) =~= seq![f1]);
    assert(line_fragments(l2) =~= seq![f2]);
    assert(lines.drop_first() =~= seq![l2]);
    assert(seq![l2].drop_first() =~= Seq::<SpecLine>::empty());
    assert(fragments_of(Seq::<SpecLine>::empty()) =~= Seq::<Fragment>::empty());
    assert(fragments_of(seq![l2]) =~= seq![f2]);
    let frags = fragments_of(lines);
    assert(frags =~= seq![f1, f2]);
    assert(frags.drop_last() =~= seq![f1]);
    assert(seq![f1].drop_last() =~= Seq::<Fragment>::empty());
    assert(rec_fold(file, base, default, Seq::<Fragment>::empty()) == rec_init());
    assert(rec_fold(file, base, default, seq![f1]) == rec_step(
        file,
        base,
        default,
        rec_init(),
        f1,
    ));
    assert(rec_fold(file, base, default, frags) == rec_step(
        file,
        base,
        default,
        rec_fold(file, base, default, seq![f1]),
        f2,
    ));
}

/// Correspondence between the loop's executable open-multi-line state, the
/// specification's, and the line the open start fragment sits on, with the
/// bounds the reconstruction relies on.
pub open spec fn open_state_ok(
    exec_open: Option<(Option<String>, usize)>,
    spec_open: Option<(Option<Seq<char>>, int)>,
    open_line: Option<usize>,
    file: SourceFile,
    base: int,
    first: usize,
) -> bool {
    match (exec_open, spec_open, open_line) {
        (Option::None, Option::None, Option::None) => true,
        (Option::Some(e), Option::Some(s), Option::Some(ol)) => {
            &&& opt_label_view(e.0) == s.0
            &&& e.1 as int == s.1
            &&& first <= ol <= file.lines@.len()
            &&& 0 <= s.1
            &&& base + s.1 <= file.spec_line_start(ol as int) - 1
        },
        _ => false,
    }
}

/// Every emitted annotation has an ordered byte range lying inside the
/// excerpt of lines `first..=last`.
pub open spec fn anns_valid(anns: Seq<OwnedAnnotation>, file: SourceFile, first: int, last: int) -> bool {
    forall|k: int|
        0 <= k < anns.len() ==> {
            let a = #[trigger] anns[k];
            a.start <= a.end && a.end as int <= excerpt_byte_len(file, first, last)
        }
}

/// Merges the per-line fragments of one file back into whole annotations
/// with byte ranges addressing the file's excerpt, and assembles the
/// snippet: origin name, excerpt text, starting line number, fold flag and
/// the reconstructed annotations in fragment arrival order.
pub fn file_to_snippet(
    sm: &SourceMap,
    file_id: usize,
    lines: &Vec<Line>,
    default_level: Level,
) -> (r: OwnedSnippet)
    requires
        sm.wf(),
        (file_id as int) < sm.files@.len(),
        lines@.len() > 0,
        lines_wf(lines_view(lines@), sm.files@[file_id as int]),
        frags_ok(fragments_of(lines_view(lines@)), None),
    ensures
        is_snippet_for(r, *sm, file_id as int, lines_view(lines@), default_level),
        anns_valid(
            r.annotations@,
            sm.files@[file_id as int],
            lines_view(lines@)[0].line_index as int,
            lines_view(lines@)[lines@.len() - 1].line_index as int,
        ),
{
    let ghost file = sm.files@[file_id as int];
    let ghost vl = lines_view(lines@);
    let file_ref = &sm.files[file_id];
    let n = lines.len();
    let first_line = lines[0].line_index;
    let last_line = lines[n - 1].line_index;
    proof {
        assert(sm.files@[file_id as int].wf());
        assert(vl.len() == lines@.len());
        assert(vl[0] == line_view(lines@[0]));
        assert(vl[n - 1] == line_view(lines@[n - 1]));
        assert(lines_wf(vl, file));
        assert(1 <= vl[0].line_index);
        assert(vl[n - 1].line_index <= file.lines@.len());
        assert(vl[0].line_index <= vl[n - 1].line_index);
    }
    let snippet_base = line_position(file_ref, first_line - 1);
    let source = excerpt(file_ref, first_line - 1, last_line - 1);
    let origin = file_ref.name.clone();
    let ghost base = file.spec_line_start(first_line as int - 1);

    let mut annotations: Vec<OwnedAnnotation> = Vec::new();
    let mut open_ml: Option<(Option<String>, usize)> = None;
    let ghost mut processed: Seq<Fragment> = Seq::empty();
    let ghost mut remaining: Seq<Fragment> = fragments_of(vl);
    let ghost mut open_line: Option<usize> = None;
    proof {
        assert(vl.take(0) =~= Seq::<SpecLine>::empty());
        assert(vl.skip(0) =~= vl);
        assert(processed =~= fragments_of(vl.take(0)));
        assert(annotations@.map_values(|a: OwnedAnnotation| a@) =~= rec_fold(
            file,
            base,
            default_level,
            processed,
        ).out);
    }

    let mut i: usize = 0;
    while i < n
        invariant
            sm.wf(),
            file.wf(),
            *file_ref == file,
            (file_id as int) < sm.files@.len(),
            file == sm.files@[file_id as int],
            n == lines@.len(),
            vl == lines_view(lines@),
            0 < n,
            i <= n,
            lines_wf(vl, file),
            first_line == vl[0].line_index,
            last_line == vl[n - 1].line_index,
            1 <= first_line,
            last_line as int <= file.lines@.len(),
            base == file.spec_line_start(first_line as int - 1),
            snippet_base == base,
            processed == fragments_of(vl.take(i as int)),
            remaining == fragments_of(vl.skip(i as int)),
            frags_ok(remaining, open_line),
            annotations@.map_values(|a: OwnedAnnotation| a@) == rec_fold(
                file,
                base,
                default_level,
                processed,
            ).out,
            open_state_ok(
                open_ml,
                rec_fold(file, base, default_level, processed).open_ml,
                open_line,
                file,
                base,
                first_line,
            ),
            anns_valid(annotations@, file, first_line as int, last_line as int),
        decreases n - i,
    {
        let line = &lines[i];
        let ghost line_g = vl[i as int];
        proof {
            assert(vl[i as int] == line_view(lines@[i as int]));
        }
        proof {
            assert(1 <= line_g.line_index <= file.lines@.len());
            assert(first_line <= line_g.line_index);
            assert(line_g.line_index <= last_line);
            lemma_line_start_mono(file, 0, first_line as int - 1);
            lemma_line_start_mono(file, first_line as int - 1, line_g.line_index as int - 1);
            lemma_line_start_mono(file, line_g.line_index as int - 1, line_g.line_index as int);
            lemma_line_start_mono(file, line_g.line_index as int, last_line as int);
            lemma_line_start_mono(file, last_line as int, file.lines@.len() as int);
        }
        let line_abs = line_position(file_ref, line.line_index - 1);
        let line_rel = line_abs - snippet_base;
        let text = file_ref.lines[line.line_index - 1].as_str();
        proof {
            lemma_utf8_len_nonneg(text@);
            // The whole line, relative to the excerpt, ends before the
            // newline that closes it, which lies inside the excerpt.
            assert(line_rel + utf8_len(text@) <= excerpt_byte_len(
                file,
                first_line as int,
                last_line as int,
            ));
            // Unfold one line's worth of the remaining fragments.
            assert(vl.skip(i as int)[0] == line_g);
            assert(vl.skip(i as int).drop_first() =~= vl.skip(i as int + 1));
            assert(remaining =~= line_fragments(line_g) + fragments_of(vl.skip(i as int + 1)));
        }
        let m = line.annotations.len();
        let mut j: usize = 0;
        while j < m
            invariant
                sm.wf(),
                (file_id as int) < sm.files@.len(),
                file == sm.files@[file_id as int],
                n == lines@.len(),
                vl == lines_view(lines@),
                0 < n,
                i < n,
                lines_wf(vl, file),
                first_line == vl[0].line_index,
                last_line == vl[n - 1].line_index,
                1 <= first_line,
                last_line as int <= file.lines@.len(),
                base == file.spec_line_start(first_line as int - 1),
                snippet_base == base,
                line_g == vl[i as int],
                line_view(*line) == line_g,
                *file_ref == file,
                m == line_g.annotations.len(),
                j <= m,
                first_line <= line_g.line_index <= last_line,
                line_abs == file.spec_line_start(line_g.line_index as int - 1),
                base <= line_abs,
                line_rel == line_abs - base,
                text@ == file.lines@[line_g.line_index as int - 1]@,
                line_rel + utf8_len(text@) <= excerpt_byte_len(
                    file,
                    first_line as int,
                    last_line as int,
                ),
                line_abs + utf8_len(text@) + 1 <= file.spec_line_start(line_g.line_index as int),
                excerpt_byte_len(file, first_line as int, last_line as int) + base + 1 <= file.spec_byte_len(),
                file.wf(),
                processed == fragments_of(vl.take(i as int)) + line_fragments(line_g).take(
                    j as int,
                ),
                remaining == line_fragments(line_g).skip(j as int) + fragments_of(
                    vl.skip(i as int + 1),
                ),
                frags_ok(remaining, open_line),
                annotations@.map_values(|a: OwnedAnnotation| a@) == rec_fold(
                    file,
                    base,
                    default_level,
                    processed,
                ).out,
                open_state_ok(
                    open_ml,
                    rec_fold(file, base, default_level, processed).open_ml,
                    open_line,
                    file,
                    base,
                    first_line,
                ),
                anns_valid(annotations@, file, first_line as int, last_line as int),
            decreases m - j,
        {
            let ann = &line.annotations[j];
            let ghost f = Fragment { line: line_g.line_index, ann: line_g.annotations[j as int] };
            let ghost st_old = rec_fold(file, base, default_level, processed);
            let ghost processed_new = processed.push(f);
            proof {
                assert(line_fragments(line_g)[j as int] == f);
                assert(remaining[0] == f);
                assert(remaining.len() > 0);
                assert(f.ann == *ann);
                lemma_frags_ok_step(remaining, open_line);
                assert(processed_new.drop_last() =~= processed);
                assert(rec_fold(file, base, default_level, processed_new) == rec_step(
                    file,
                    base,
                    default_level,
                    st_old,
                    f,
                ));
                assert(line_fragments(line_g).take(j as int + 1) =~= line_fragments(line_g).take(
                    j as int,
                ).push(f));
                assert(remaining.drop_first() =~= line_fragments(line_g).skip(j as int + 1)
                    + fragments_of(vl.skip(i as int + 1)));
            }
            match ann.kind {
                AnnotationKind::Singleline { start_col, end_col } => {
                    proof {
                        lemma_char_to_byte_bounds(text@, start_col as int);
                        lemma_char_to_byte_bounds(text@, end_col as int);
                        lemma_char_to_byte_mono(text@, start_col as int, end_col as int);
                    }
                    let s_pos = line_rel + char_to_byte_pos(text, start_col);
                    let e_pos = line_rel + char_to_byte_pos(text, end_col);
                    let label = match &ann.label {
                        Some(l) => l.clone(),
                        None => String::new(),
                    };
                    let level = to_render_level(
                        match ann.level {
                            Some(l) => l,
                            None => default_level,
                        },
                    );
                    annotations.push(OwnedAnnotation { start: s_pos, end: e_pos, label, level });
                    proof {
                        let st_new = rec_step(file, base, default_level, st_old, f);
                        assert(annotations@.map_values(|a: OwnedAnnotation| a@) =~= st_new.out);
                    }
                }
                AnnotationKind::MultilineStart { start_col } => {
                    proof {
                        lemma_char_to_byte_bounds(text@, start_col as int);
                    }
                    let s_pos = line_rel + char_to_byte_pos(text, start_col);
                    let lab = match &ann.label {
                        Some(l) => Some(l.clone()),
                        None => None,
                    };
                    open_ml = Some((lab, s_pos));
                    proof {
                        open_line = Some(f.line);
                    }
                }
                AnnotationKind::MultilineLine => {}
                AnnotationKind::MultilineEnd { end_col } => {
                    proof {
                        lemma_char_to_byte_bounds(text@, end_col as int);
                        assert(open_line matches Some(ol) && ol < f.line);
                        assert(open_ml is Some);
                        match open_line {
                            Some(ol) => lemma_line_start_mono(
                                file,
                                ol as int,
                                line_g.line_index as int - 1,
                            ),
                            None => (),
                        }
                    }
                    let e_pos = line_rel + char_to_byte_pos(text, end_col);
                    let taken = open_ml;
                    open_ml = None;
                    match taken {
                        Some((olab, os)) => {
                            let label = match olab {
                                Some(l) => l,
                                None => match &ann.label {
                                    Some(l) => l.clone(),
                                    None => String::new(),
                                },
                            };
                            let level = to_render_level(
                                match ann.level {
                                    Some(l) => l,
                                    None => default_level,
                                },
                            );
                            annotations.push(
                                OwnedAnnotation { start: os, end: e_pos, label, level },
                            );
                            proof {
                                open_line = None;
                                let st_new = rec_step(file, base, default_level, st_old, f);
                                assert(annotations@.map_values(|a: OwnedAnnotation| a@)
                                    =~= st_new.out);
                            }
                        }
                        None => unreached(),
                    }
                }
            }
            proof {
                processed = processed_new;
                remaining = remaining.drop_first();
            }
            j = j + 1;
        }
        proof {
            assert(line_fragments(line_g).take(m as int) =~= line_fragments(line_g));
            assert(vl.take(i as int + 1) =~= vl.take(i as int) + seq![line_g]);
            lemma_fragments_of_concat(vl.take(i as int), seq![line_g]);
            assert(seq![line_g].drop_first() =~= Seq::<SpecLine>::empty());
            assert(seq![line_g][0] == line_g);
            assert(fragments_of(Seq::<SpecLine>::empty()) =~= Seq::<Fragment>::empty());
            assert(fragments_of(seq![line_g]) == line_fragments(seq![line_g][0]) + fragments_of(
                seq![line_g].drop_first(),
            ));
            assert(fragments_of(seq![line_g]) =~= line_fragments(line_g));
            assert(processed =~= fragments_of(vl.take(i as int + 1)));
            assert(line_fragments(line_g).skip(m as int) =~= Seq::<Fragment>::empty());
            assert(remaining =~= fragments_of(vl.skip(i as int + 1)));
        }
        i = i + 1;
    }
    proof {
        assert(vl.take(n as int) =~= vl);
        assert(annotations@.map_values(|a: OwnedAnnotation| a@) == reconstruct(
            file,
            base,
            default_level,
            vl,
        ));
    }
    OwnedSnippet { origin, source, line_start: first_line, fold: true, annotations }
}

} // verus!
