use diag_render::annotations::{Annotation, AnnotationKind, FileWithAnnotatedLines, Line};
use diag_render::collect::{collect, collect_files};
use diag_render::diagnostic::{Diagnostic, MultiSpan, Span, SubDiagnostic};
use diag_render::emitter::assemble;
use diag_render::level::{to_render_level, Level, RenderLevel};
use diag_render::snippet::{file_to_snippet, OwnedSnippet};
use diag_render::source_map::{char_to_byte_pos, excerpt, line_position, SourceFile, SourceMap};

fn file(name: &str, lines: &[&str]) -> SourceFile {
    SourceFile {
        name: name.to_string(),
        lines: lines.iter().map(|l| l.to_string()).collect(),
    }
}

fn ann(kind: AnnotationKind, is_primary: bool, label: Option<&str>, level: Option<Level>) -> Annotation {
    Annotation { kind, is_primary, label: label.map(|s| s.to_string()), level }
}

fn joined(s: &OwnedSnippet) -> String {
    s.source
        .iter()
        .map(|l| l.as_str())
        .collect::<Vec<_>>()
        .join("\n")
}

fn span_in(file: usize) -> MultiSpan {
    MultiSpan { spans: vec![Span { file, lo: 0, hi: 1 }], primary: Some(0) }
}

fn dummy_span() -> MultiSpan {
    MultiSpan { spans: Vec::new(), primary: None }
}

#[test]
fn render_level_mapping() {
    assert_eq!(to_render_level(Level::Bug), RenderLevel::Error);
    assert_eq!(to_render_level(Level::Fatal), RenderLevel::Error);
    assert_eq!(to_render_level(Level::Error), RenderLevel::Error);
    assert_eq!(to_render_level(Level::Warning), RenderLevel::Warning);
    assert_eq!(to_render_level(Level::Note), RenderLevel::Note);
    assert_eq!(to_render_level(Level::OnceNote), RenderLevel::Note);
    assert_eq!(to_render_level(Level::FailureNote), RenderLevel::Note);
    assert_eq!(to_render_level(Level::Help), RenderLevel::Help);
    assert_eq!(to_render_level(Level::OnceHelp), RenderLevel::Help);
    assert_eq!(to_render_level(Level::Allow), RenderLevel::Info);
}

#[test]
fn char_to_byte_ascii() {
    assert_eq!(char_to_byte_pos("hello", 0), 0);
    assert_eq!(char_to_byte_pos("hello", 3), 3);
    assert_eq!(char_to_byte_pos("hello", 5), 5);
}

#[test]
fn char_to_byte_saturates_past_end() {
    assert_eq!(char_to_byte_pos("hi", 10), 2);
}

#[test]
fn char_to_byte_multibyte_prefix() {
    // Two 2-byte characters before the annotated range.
    let s = "\u{3b1}\u{3b2}c def"; // "αβc def"
    assert_eq!(char_to_byte_pos(s, 2), 4);
    assert_eq!(char_to_byte_pos(s, 5), 7);
    // Round trip: slicing at the computed offsets yields the covered text.
    assert_eq!(&s[char_to_byte_pos(s, 2)..char_to_byte_pos(s, 5)], "c d");
}

#[test]
fn line_positions_count_newlines() {
    let f = file("a.sol", &["abcdef", "x", "hello world"]);
    assert_eq!(line_position(&f, 0), 0);
    assert_eq!(line_position(&f, 1), 7);
    assert_eq!(line_position(&f, 2), 9);
}

#[test]
fn excerpt_returns_requested_lines() {
    let f = file("a.sol", &["one", "two", "three"]);
    let e = excerpt(&f, 1, 2);
    assert_eq!(e, vec!["two".to_string(), "three".to_string()]);
}

#[test]
fn singleline_snippet_range_decodes_to_covered_text() {
    let sm = SourceMap { files: vec![file("a.sol", &["let x = y;"])] };
    let lines = vec![Line {
        line_index: 1,
        annotations: vec![ann(
            AnnotationKind::Singleline { start_col: 4, end_col: 5 },
            true,
            None,
            None,
        )],
    }];
    let s = file_to_snippet(&sm, 0, &lines, Level::Error);
    assert_eq!(s.origin, "a.sol");
    assert_eq!(s.line_start, 1);
    assert!(s.fold);
    assert_eq!(s.annotations.len(), 1);
    let a = &s.annotations[0];
    assert_eq!((a.start, a.end), (4, 5));
    assert_eq!(&joined(&s)[a.start..a.end], "x");
    assert_eq!(a.level, RenderLevel::Error);
    assert_eq!(a.label, "");
}

#[test]
fn multibyte_snippet_range_decodes_to_covered_text() {
    // Mixed ASCII and multi-byte characters before the annotated range.
    let sm = SourceMap { files: vec![file("u.sol", &["\u{3b1}\u{3b2}c def"])] };
    let lines = vec![Line {
        line_index: 1,
        annotations: vec![ann(
            AnnotationKind::Singleline { start_col: 2, end_col: 5 },
            true,
            None,
            None,
        )],
    }];
    let s = file_to_snippet(&sm, 0, &lines, Level::Warning);
    let a = &s.annotations[0];
    assert_eq!((a.start, a.end), (4, 7));
    assert_eq!(&joined(&s)[a.start..a.end], "c d");
}

#[test]
fn multiline_span_reconstructs_to_one_annotation() {
    // Start fragment on line 1, end fragment on line 3, a middle marker on
    // line 2: exactly one annotation, from the start's offset to the end's.
    let sm = SourceMap { files: vec![file("m.sol", &["fn f(", "  a,", ") {}"])] };
    let lines = vec![
        Line {
            line_index: 1,
            annotations: vec![ann(
                AnnotationKind::MultilineStart { start_col: 3 },
                true,
                Some("unclosed"),
                None,
            )],
        },
        Line { line_index: 2, annotations: vec![ann(AnnotationKind::MultilineLine, false, None, None)] },
        Line {
            line_index: 3,
            annotations: vec![ann(AnnotationKind::MultilineEnd { end_col: 1 }, true, None, None)],
        },
    ];
    let s = file_to_snippet(&sm, 0, &lines, Level::Error);
    assert_eq!(s.line_start, 1);
    assert_eq!(s.annotations.len(), 1);
    let a = &s.annotations[0];
    // Line 1 starts at 0; line 3 starts at 6 + 5 = 11.
    assert_eq!((a.start, a.end), (3, 12));
    assert_eq!(a.label, "unclosed");
    assert_eq!(&joined(&s)[a.start..a.end], "f(\n  a,\n)");
}

#[test]
fn multiline_annotation_sits_at_closing_line_slot() {
    // A single-line annotation between the start and the end of a
    // multi-line one comes first in the output: the multi-line annotation
    // is emitted at its closing fragment's position.
    let sm = SourceMap { files: vec![file("m.sol", &["start here", "middle", "end here"])] };
    let lines = vec![
        Line {
            line_index: 1,
            annotations: vec![ann(AnnotationKind::MultilineStart { start_col: 0 }, true, None, None)],
        },
        Line {
            line_index: 2,
            annotations: vec![ann(
                AnnotationKind::Singleline { start_col: 0, end_col: 6 },
                false,
                Some("inner"),
                None,
            )],
        },
        Line {
            line_index: 3,
            annotations: vec![ann(
                AnnotationKind::MultilineEnd { end_col: 3 },
                true,
                Some("outer"),
                None,
            )],
        },
    ];
    let s = file_to_snippet(&sm, 0, &lines, Level::Error);
    assert_eq!(s.annotations.len(), 2);
    assert_eq!(s.annotations[0].label, "inner");
    assert_eq!(s.annotations[1].label, "outer");
    assert_eq!(s.annotations[1].start, 0);
    assert_eq!(s.annotations[1].end, 21);
}

#[test]
fn sub_diagnostic_merges_into_touched_file() {
    // The sub-diagnostic's span lands in the file the main diagnostic
    // already touched: one collated entry, with both annotations in line
    // order.
    let sm = SourceMap { files: vec![file("a.sol", &["abcdef", "x", "hello world"])] };
    let diag = Diagnostic {
        id: None,
        level: Level::Error,
        label: "mismatched types".to_string(),
        span: span_in(0),
        children: vec![SubDiagnostic {
            level: Level::Note,
            label: "expected due to this".to_string(),
            span: span_in(0),
        }],
    };
    let main_files = vec![FileWithAnnotatedLines {
        file: 0,
        lines: vec![Line {
            line_index: 3,
            annotations: vec![ann(
                AnnotationKind::Singleline { start_col: 5, end_col: 10 },
                true,
                None,
                None,
            )],
        }],
    }];
    let sub_files = vec![vec![FileWithAnnotatedLines {
        file: 0,
        lines: vec![Line {
            line_index: 1,
            annotations: vec![ann(
                AnnotationKind::Singleline { start_col: 1, end_col: 3 },
                true,
                None,
                None,
            )],
        }],
    }]];
    let snippets = collect(&sm, &diag, main_files, sub_files);
    assert_eq!(snippets.len(), 1);
    let s = &snippets[0];
    assert_eq!(s.origin, "a.sol");
    assert_eq!(s.line_start, 1);
    assert_eq!(s.source.len(), 3);
    assert_eq!(s.annotations.len(), 2);
    // The sub-diagnostic's annotation (line 1) comes first: line order.
    let first = &s.annotations[0];
    assert_eq!((first.start, first.end), (1, 3));
    assert_eq!(first.label, "expected due to this");
    assert_eq!(first.level, RenderLevel::Note);
    let second = &s.annotations[1];
    assert_eq!((second.start, second.end), (14, 19));
    assert_eq!(second.label, "");
    assert_eq!(second.level, RenderLevel::Error);
    assert_eq!(&joined(s)[second.start..second.end], " worl");
}

#[test]
fn sub_diagnostic_in_new_file_is_appended() {
    let sm = SourceMap {
        files: vec![file("a.sol", &["aaa"]), file("b.sol", &["bbb"])],
    };
    let diag = Diagnostic {
        id: None,
        level: Level::Error,
        label: "e".to_string(),
        span: span_in(0),
        children: vec![SubDiagnostic {
            level: Level::Help,
            label: "h".to_string(),
            span: span_in(1),
        }],
    };
    let one_line = |idx: usize| {
        vec![Line {
            line_index: 1,
            annotations: vec![ann(
                AnnotationKind::Singleline { start_col: 0, end_col: 1 },
                true,
                None,
                None,
            )],
        }]
    };
    let main_files = vec![FileWithAnnotatedLines { file: 0, lines: one_line(0) }];
    let sub_files = vec![vec![FileWithAnnotatedLines { file: 1, lines: one_line(1) }]];
    let snippets = collect(&sm, &diag, main_files, sub_files);
    assert_eq!(snippets.len(), 2);
    assert_eq!(snippets[0].origin, "a.sol");
    assert_eq!(snippets[1].origin, "b.sol");
    assert_eq!(snippets[1].annotations[0].level, RenderLevel::Help);
    assert_eq!(snippets[1].annotations[0].label, "h");
}

#[test]
fn primary_file_moves_to_front() {
    // Two touched files, the primary span lies in the second: it renders
    // first.
    let span = MultiSpan {
        spans: vec![Span { file: 7, lo: 0, hi: 1 }],
        primary: Some(0),
    };
    let entry = |id: usize, line: usize| FileWithAnnotatedLines {
        file: id,
        lines: vec![Line {
            line_index: line,
            annotations: vec![ann(
                AnnotationKind::Singleline { start_col: 0, end_col: 1 },
                true,
                None,
                None,
            )],
        }],
    };
    let reordered = collect_files(&span, vec![entry(3, 1), entry(7, 2)]);
    assert_eq!(reordered.len(), 2);
    assert_eq!(reordered[0].file, 7);
    assert_eq!(reordered[1].file, 3);
}

#[test]
fn single_file_keeps_collation_order() {
    let span = MultiSpan {
        spans: vec![Span { file: 3, lo: 0, hi: 1 }],
        primary: Some(0),
    };
    let entry = FileWithAnnotatedLines { file: 3, lines: Vec::new() };
    let reordered = collect_files(&span, vec![entry]);
    assert_eq!(reordered.len(), 1);
    assert_eq!(reordered[0].file, 3);
}

#[test]
fn no_primary_keeps_collation_order() {
    let span = MultiSpan { spans: Vec::new(), primary: None };
    let a = FileWithAnnotatedLines { file: 1, lines: Vec::new() };
    let b = FileWithAnnotatedLines { file: 0, lines: Vec::new() };
    let reordered = collect_files(&span, vec![a, b]);
    assert_eq!(reordered[0].file, 1);
    assert_eq!(reordered[1].file, 0);
}

#[test]
fn dummy_subs_become_footers_in_order() {
    let sm = SourceMap { files: vec![file("b.sol", &["pragma;"])] };
    let diag = Diagnostic {
        id: Some("E0001".to_string()),
        level: Level::Error,
        label: "broken".to_string(),
        span: span_in(0),
        children: vec![
            SubDiagnostic {
                level: Level::Note,
                label: "see docs".to_string(),
                span: dummy_span(),
            },
            SubDiagnostic {
                level: Level::Help,
                label: "try this".to_string(),
                span: dummy_span(),
            },
        ],
    };
    let main_files = vec![FileWithAnnotatedLines {
        file: 0,
        lines: vec![Line {
            line_index: 1,
            annotations: vec![ann(
                AnnotationKind::Singleline { start_col: 0, end_col: 6 },
                true,
                None,
                None,
            )],
        }],
    }];
    let sub_files = vec![Vec::new(), Vec::new()];
    let assembled = assemble(Some(&sm), &diag, main_files, sub_files);
    assert_eq!(assembled.title.id.as_deref(), Some("E0001"));
    assert_eq!(assembled.title.label, "broken");
    assert_eq!(assembled.title.level, RenderLevel::Error);
    // One snippet for b.sol, the dummy subs as footers, in order.
    assert_eq!(assembled.snippets.len(), 1);
    assert_eq!(assembled.snippets[0].origin, "b.sol");
    assert_eq!(assembled.footers.len(), 2);
    assert_eq!(assembled.footers[0].label, "see docs");
    assert_eq!(assembled.footers[0].level, RenderLevel::Note);
    assert!(assembled.footers[0].id.is_none());
    assert_eq!(assembled.footers[1].label, "try this");
    assert_eq!(assembled.footers[1].level, RenderLevel::Help);
}

#[test]
fn no_source_map_renders_title_and_footers_only() {
    let diag = Diagnostic {
        id: None,
        level: Level::Warning,
        label: "w".to_string(),
        span: dummy_span(),
        children: vec![SubDiagnostic {
            level: Level::Note,
            label: "n".to_string(),
            span: dummy_span(),
        }],
    };
    let assembled = assemble(None, &diag, Vec::new(), vec![Vec::new()]);
    assert_eq!(assembled.title.level, RenderLevel::Warning);
    assert!(assembled.snippets.is_empty());
    assert_eq!(assembled.footers.len(), 1);
    assert_eq!(assembled.footers[0].label, "n");
}

#[test]
fn fragment_severity_override_wins_over_default() {
    let sm = SourceMap { files: vec![file("a.sol", &["abc"])] };
    let lines = vec![Line {
        line_index: 1,
        annotations: vec![ann(
            AnnotationKind::Singleline { start_col: 0, end_col: 1 },
            false,
            Some("careful"),
            Some(Level::Warning),
        )],
    }];
    let s = file_to_snippet(&sm, 0, &lines, Level::Error);
    assert_eq!(s.annotations[0].level, RenderLevel::Warning);
    assert_eq!(s.annotations[0].label, "careful");
}

#[test]
fn sub_label_does_not_overwrite_inline_label() {
    // A primary fragment that already carries a label keeps it: first
    // non-empty label wins.
    let sm = SourceMap { files: vec![file("a.sol", &["abc", "def"])] };
    let diag = Diagnostic {
        id: None,
        level: Level::Error,
        label: "top".to_string(),
        span: span_in(0),
        children: vec![SubDiagnostic {
            level: Level::Note,
            label: "sub label".to_string(),
            span: span_in(0),
        }],
    };
    let main_files = vec![FileWithAnnotatedLines {
        file: 0,
        lines: vec![Line {
            line_index: 1,
            annotations: vec![ann(
                AnnotationKind::Singleline { start_col: 0, end_col: 1 },
                true,
                None,
                None,
            )],
        }],
    }];
    let sub_files = vec![vec![FileWithAnnotatedLines {
        file: 0,
        lines: vec![Line {
            line_index: 2,
            annotations: vec![ann(
                AnnotationKind::Singleline { start_col: 0, end_col: 3 },
                true,
                Some("inline"),
                None,
            )],
        }],
    }]];
    let snippets = collect(&sm, &diag, main_files, sub_files);
    assert_eq!(snippets[0].annotations[1].label, "inline");
    assert_eq!(snippets[0].annotations[1].level, RenderLevel::Note);
}

#[test]
fn multiline_interleaves_with_merged_sub_annotation() {
    // The main diagnostic's multi-line span opens on line 1 and closes on
    // line 3; the sub-diagnostic annotates line 2 of the same file. After
    // merging, the single-line annotation is emitted first and the
    // multi-line one at its closing line's slot.
    let sm = SourceMap { files: vec![file("a.sol", &["aaa", "bbb", "ccc"])] };
    let diag = Diagnostic {
        id: None,
        level: Level::Error,
        label: "top".to_string(),
        span: span_in(0),
        children: vec![SubDiagnostic {
            level: Level::Note,
            label: "expected".to_string(),
            span: span_in(0),
        }],
    };
    let main_files = vec![FileWithAnnotatedLines {
        file: 0,
        lines: vec![
            Line {
                line_index: 1,
                annotations: vec![ann(
                    AnnotationKind::MultilineStart { start_col: 0 },
                    true,
                    None,
                    None,
                )],
            },
            Line {
                line_index: 3,
                annotations: vec![ann(AnnotationKind::MultilineEnd { end_col: 2 }, true, None, None)],
            },
        ],
    }];
    let sub_files = vec![vec![FileWithAnnotatedLines {
        file: 0,
        lines: vec![Line {
            line_index: 2,
            annotations: vec![ann(
                AnnotationKind::Singleline { start_col: 0, end_col: 3 },
                true,
                None,
                None,
            )],
        }],
    }]];
    let snippets = collect(&sm, &diag, main_files, sub_files);
    assert_eq!(snippets.len(), 1);
    let s = &snippets[0];
    assert_eq!(s.annotations.len(), 2);
    let inner = &s.annotations[0];
    assert_eq!((inner.start, inner.end), (4, 7));
    assert_eq!(inner.label, "expected");
    assert_eq!(inner.level, RenderLevel::Note);
    let outer = &s.annotations[1];
    assert_eq!((outer.start, outer.end), (0, 10));
    assert_eq!(outer.label, "");
    assert_eq!(outer.level, RenderLevel::Error);
    assert_eq!(&joined(s)[outer.start..outer.end], "aaa\nbbb\ncc");
}

#[test]
fn multi_span_dummy_and_primary() {
    let d = dummy_span();
    assert!(d.is_dummy());
    assert!(d.primary_span().is_none());
    let m = MultiSpan {
        spans: vec![Span { file: 2, lo: 5, hi: 9 }],
        primary: Some(0),
    };
    assert!(!m.is_dummy());
    assert_eq!(m.primary_span(), Some(Span { file: 2, lo: 5, hi: 9 }));
}

#[test]
fn degenerate_diagnostic_renders_title_only() {
    // An empty multi-span and no sub-diagnostics: zero snippets, zero
    // footers, only a title.
    let sm = SourceMap { files: vec![file("a.sol", &["x"])] };
    let diag = Diagnostic {
        id: None,
        level: Level::Fatal,
        label: "out of memory".to_string(),
        span: dummy_span(),
        children: Vec::new(),
    };
    let assembled = assemble(Some(&sm), &diag, Vec::new(), Vec::new());
    assert_eq!(assembled.title.label, "out of memory");
    assert_eq!(assembled.title.level, RenderLevel::Error);
    assert!(assembled.snippets.is_empty());
    assert!(assembled.footers.is_empty());
}
