//! Assembly of the renderer-facing data: the title, the ordered per-file
//! snippets, and the footer messages of sub-diagnostics without a
//! location. The text renderer itself is an outside consumer; this module
//! guarantees that what it is handed is internally consistent.

use vstd::prelude::*;
use crate::annotations::FileWithAnnotatedLines;
use crate::collect::{collated_files, collect, files_view, snippet_ok, spec_files_ok, subres_views};
use crate::diagnostic::{Diagnostic, SubDiagnostic};
use crate::level::{spec_render_level, to_render_level};
use crate::snippet::{OwnedMessage, OwnedSnippet};
use crate::source_map::SourceMap;

verus! {

impl OwnedMessage {
    /// The title of a diagnostic: its identifier, its label, and its
    /// severity mapped to the renderer's severity set.
    pub fn from_diagnostic(diag: &Diagnostic) -> (r: OwnedMessage)
        ensures
            r.id == diag.id,
            r.label == diag.label,
            r.level == spec_render_level(diag.level),
    {
        let id = match &diag.id {
            Some(s) => Some(s.clone()),
            None => None,
        };
        OwnedMessage { id, label: diag.label.clone(), level: to_render_level(diag.level) }
    }

    /// A sub-diagnostic as a plain message: no identifier, its label, and
    /// its severity mapped to the renderer's severity set.
    pub fn from_subdiagnostic(sub: &SubDiagnostic) -> (r: OwnedMessage)
        ensures
            r == spec_footer(*sub),
    {
        OwnedMessage { id: None, label: sub.label.clone(), level: to_render_level(sub.level) }
    }
}

/// The footer message of one sub-diagnostic that carries no location.
pub open spec fn spec_footer(sub: SubDiagnostic) -> OwnedMessage {
    OwnedMessage { id: None, label: sub.label, level: spec_render_level(sub.level) }
}

/// The footer list: every sub-diagnostic whose span set is empty, as a
/// plain message, keeping their relative arrival order. Sub-diagnostics
/// with a location never appear here: they render as source slices.
pub open spec fn spec_footers(children: Seq<SubDiagnostic>) -> Seq<OwnedMessage>
    decreases children.len(),
{
    if children.len() == 0 {
        Seq::empty()
    } else {
        let rest = spec_footers(children.drop_last());
        if children.last().span.spec_is_dummy() {
            rest.push(spec_footer(children.last()))
        } else {
            rest
        }
    }
}


/// A sub-diagnostic without a location renders as a footer, never as a
/// source slice: appending it to the children appends exactly its message
/// to the footer list, keeping the order, and an empty resolved file list
/// leaves the collated file list untouched.
pub proof fn lemma_dummy_sub_is_footer_only(
    children: Seq<SubDiagnostic>,
    sub: SubDiagnostic,
    files: Seq<crate::collect::SpecFile>,
)
    requires
        sub.span.spec_is_dummy(),
    ensures
        spec_footers(children.push(sub)) == spec_footers(children).push(spec_footer(sub)),
        crate::collect::merge_one_sub(files, sub, Seq::empty()) == files,
{
    assert(children.push(sub).drop_last() =~= children);
}

/// A sub-diagnostic that carries a location never becomes a footer:
/// appending it leaves the footer list unchanged.
pub proof fn lemma_located_sub_is_no_footer(children: Seq<SubDiagnostic>, sub: SubDiagnostic)
    requires
        !sub.span.spec_is_dummy(),
    ensures
        spec_footers(children.push(sub)) == spec_footers(children),
{
    assert(children.push(sub).drop_last() =~= children);
}

/// Everything the text renderer is handed for one diagnostic: the title,
/// the ordered per-file snippets, and the footer messages.
pub struct AssembledDiagnostic {
    pub title: OwnedMessage,
    pub snippets: Vec<OwnedSnippet>,
    pub footers: Vec<OwnedMessage>,
}

/// Assembles a diagnostic for rendering. `main_files` holds the resolved
/// fragment lists of the diagnostic's own spans and `sub_files` those of
/// each sub-diagnostic, in order, both as the upstream location resolver
/// hands them over. Without a source map no snippets are produced: the
/// diagnostic renders with only its title and footers.
pub fn assemble(
    sm: Option<&SourceMap>,
    diagnostic: &Diagnostic,
    main_files: Vec<FileWithAnnotatedLines>,
    sub_files: Vec<Vec<FileWithAnnotatedLines>>,
) -> (r: AssembledDiagnostic)
    requires
        diagnostic.wf(),
        sub_files@.len() == diagnostic.children@.len(),
        match sm {
            Some(m) => m.wf() && spec_files_ok(
                *m,
                collated_files(*diagnostic, files_view(main_files@), subres_views(sub_files@)),
            ),
            None => true,
        },
    ensures
        r.title.id == diagnostic.id,
        r.title.label == diagnostic.label,
        r.title.level == spec_render_level(diagnostic.level),
        r.footers@ == spec_footers(diagnostic.children@),
        match sm {
            Some(m) => {
                let collated = collated_files(
                    *diagnostic,
                    files_view(main_files@),
                    subres_views(sub_files@),
                );
                &&& r.snippets@.len() == collated.len()
                &&& forall|i: int|
                    0 <= i < collated.len() ==> snippet_ok(
                        #[trigger] r.snippets@[i],
                        *m,
                        collated[i],
                        diagnostic.level,
                    )
            },
            None => r.snippets@.len() == 0,
        },
{
    let title = OwnedMessage::from_diagnostic(diagnostic);

    let snippets = match sm {
        Some(m) => collect(m, diagnostic, main_files, sub_files),
        None => Vec::new(),
    };

    let mut footers: Vec<OwnedMessage> = Vec::new();
    let nc = diagnostic.children.len();
    proof {
        assert(diagnostic.children@.take(0) =~= Seq::<SubDiagnostic>::empty());
        assert(spec_footers(diagnostic.children@.take(0)) =~= footers@);
    }
    let mut i: usize = 0;
    while i < nc
        invariant
            nc == diagnostic.children@.len(),
            i <= nc,
            footers@ == spec_footers(diagnostic.children@.take(i as int)),
        decreases nc - i,
    {
        let sub = &diagnostic.children[i];
        let ghost pre = diagnostic.children@.take(i as int);
        let ghost cur = diagnostic.children@.take(i as int + 1);
        proof {
            assert(cur.drop_last() =~= pre);
            assert(cur.last() == diagnostic.children@[i as int]);
        }
        if sub.span.is_dummy() {
            footers.push(OwnedMessage::from_subdiagnostic(sub));
            proof {
                assert(spec_footers(cur) == spec_footers(pre).push(spec_footer(cur.last())));
                assert(footers@ =~= spec_footers(cur));
            }
        } else {
            proof {
                assert(spec_footers(cur) == spec_footers(pre));
                assert(footers@ =~= spec_footers(cur));
            }
        }
        i = i + 1;
    }
    proof {
        assert(diagnostic.children@.take(nc as int) =~= diagnostic.children@);
    }
    AssembledDiagnostic { title, snippets, footers }
}

} // verus!
