//! Collation of annotated files: merging a sub-diagnostic's touched files
//! into the main diagnostic's file set by file identity, defaulting
//! severities and labels from the sub-diagnostic, and ordering the file
//! list so the primary span's file renders first.

use vstd::prelude::*;
use crate::annotations::{
    Annotation, FileWithAnnotatedLines, Line, SpecLine, fragments_of, frags_ok, line_view,
    lines_view, lines_wf,
};
use crate::diagnostic::{Diagnostic, MultiSpan, SubDiagnostic};
use crate::level::Level;
use crate::snippet::{OwnedSnippet, anns_valid, file_to_snippet, is_snippet_for};
use crate::source_map::SourceMap;

verus! {

/// The mathematical image of a [`FileWithAnnotatedLines`].
pub ghost struct SpecFile {
    pub file: usize,
    pub lines: Seq<SpecLine>,
}

pub open spec fn file_view(f: FileWithAnnotatedLines) -> SpecFile {
    SpecFile { file: f.file, lines: lines_view(f.lines@) }
}

pub open spec fn files_view(fs: Seq<FileWithAnnotatedLines>) -> Seq<SpecFile> {
    fs.map_values(|f: FileWithAnnotatedLines| file_view(f))
}

/// One annotation with a sub-diagnostic's defaults applied: the
/// sub-diagnostic's severity where the fragment carries no override, and,
/// for a primary fragment without a label, the sub-diagnostic's label.
pub open spec fn apply_meta_ann(a: Annotation, lv: Level, lbl: String) -> Annotation {
    Annotation {
        kind: a.kind,
        is_primary: a.is_primary,
        label: if a.is_primary && a.label is None {
            Some(lbl)
        } else {
            a.label
        },
        level: Some(
            match a.level {
                Some(l) => l,
                None => lv,
            },
        ),
    }
}

pub open spec fn apply_meta_line(l: SpecLine, lv: Level, lbl: String) -> SpecLine {
    SpecLine {
        line_index: l.line_index,
        annotations: l.annotations.map_values(|a: Annotation| apply_meta_ann(a, lv, lbl)),
    }
}

pub open spec fn apply_meta_file(f: SpecFile, lv: Level, lbl: String) -> SpecFile {
    SpecFile {
        file: f.file,
        lines: f.lines.map_values(|l: SpecLine| apply_meta_line(l, lv, lbl)),
    }
}

/// Stable merge of two line lists sorted by line index: on a tie the left
/// list's line comes first, so annotations keep arrival order.
pub open spec fn merge_lines(a: Seq<SpecLine>, b: Seq<SpecLine>) -> Seq<SpecLine>
    decreases a.len() + b.len(),
{
    if a.len() == 0 {
        b
    } else if b.len() == 0 {
        a
    } else if a[0].line_index <= b[0].line_index {
        seq![a[0]] + merge_lines(a.drop_first(), b)
    } else {
        seq![b[0]] + merge_lines(a, b.drop_first())
    }
}

/// Index of the first entry for file `id`, or `-1` if the file is not in
/// the list. Files match by identity, never by display name.
pub open spec fn find_file(files: Seq<SpecFile>, id: usize) -> int
    decreases files.len(),
{
    if files.len() == 0 {
        -1
    } else if files[0].file == id {
        0
    } else if find_file(files.drop_first(), id) < 0 {
        -1
    } else {
        find_file(files.drop_first(), id) + 1
    }
}

pub proof fn lemma_find_file_props(files: Seq<SpecFile>, id: usize)
    ensures
        find_file(files, id) < 0 ==> forall|k: int|
            0 <= k < files.len() ==> (#[trigger] files[k]).file != id,
        find_file(files, id) >= 0 ==> {
            let r = find_file(files, id);
            &&& r < files.len()
            &&& files[r].file == id
            &&& forall|k: int| 0 <= k < r ==> (#[trigger] files[k]).file != id
        },
    decreases files.len(),
{
    if files.len() > 0 {
        lemma_find_file_props(files.drop_first(), id);
        assert(forall|k: int|
            1 <= k < files.len() ==> (#[trigger] files[k]) == files.drop_first()[k - 1]);
    }
}

/// Merges one sub-diagnostic file into the collated list: if the same
/// file (by identity) is already present, its line lists are merged;
/// otherwise the file is appended as a new entry.
pub open spec fn merge_into(files: Seq<SpecFile>, sf: SpecFile) -> Seq<SpecFile> {
    let i = find_file(files, sf.file);
    if i < 0 {
        files.push(sf)
    } else {
        files.update(i, SpecFile { file: sf.file, lines: merge_lines(files[i].lines, sf.lines) })
    }
}

/// Moves the primary span's file to the front by swapping it with the
/// first entry, when the span set designates a primary sub-span and more
/// than one file is present; otherwise the order is unchanged.
pub open spec fn reorder_primary(files: Seq<SpecFile>, span: MultiSpan) -> Seq<SpecFile> {
    match span.spec_primary_span() {
        Some(ps) => if files.len() > 1 {
            let i = find_file(files, ps.file);
            if i > 0 {
                files.update(0, files[i]).update(i, files[0])
            } else {
                files
            }
        } else {
            files
        },
        None => files,
    }
}

/// Folds one sub-diagnostic's files into the collated list, in order:
/// each file first gets the sub-diagnostic's defaults, then is merged by
/// identity.
pub open spec fn merge_one_sub(
    files: Seq<SpecFile>,
    sub: SubDiagnostic,
    sfs: Seq<SpecFile>,
) -> Seq<SpecFile>
    decreases sfs.len(),
{
    if sfs.len() == 0 {
        files
    } else {
        merge_into(
            merge_one_sub(files, sub, sfs.drop_last()),
            apply_meta_file(sfs.last(), sub.level, sub.label),
        )
    }
}

/// Folds every sub-diagnostic into the collated list, in order. The
/// resolved file list of each sub-diagnostic is first reordered by the
/// sub-diagnostic's own primary span.
pub open spec fn collate(
    files: Seq<SpecFile>,
    children: Seq<SubDiagnostic>,
    subres: Seq<Seq<SpecFile>>,
) -> Seq<SpecFile>
    decreases children.len(),
{
    if children.len() == 0 {
        files
    } else {
        merge_one_sub(
            collate(files, children.drop_last(), subres.drop_last()),
            children.last(),
            reorder_primary(subres.last(), children.last().span),
        )
    }
}

/// The final ordered file list for a diagnostic: the main diagnostic's
/// resolved files, primary file first, with every sub-diagnostic's files
/// merged in.
pub open spec fn collated_files(
    diag: Diagnostic,
    main: Seq<SpecFile>,
    subres: Seq<Seq<SpecFile>>,
) -> Seq<SpecFile> {
    collate(reorder_primary(main, diag.span), diag.children@, subres)
}


/// Merging a sub-diagnostic's file into the collated list goes by file
/// identity: an identity already present keeps exactly one entry, whose
/// line lists are merged and whose neighbours are untouched, in order; a
/// new identity is appended at the end.
pub proof fn lemma_merge_by_identity(files: Seq<SpecFile>, sf: SpecFile)
    ensures
        find_file(files, sf.file) >= 0 ==> ({
            let i = find_file(files, sf.file);
            let merged = merge_into(files, sf);
            &&& merged.len() == files.len()
            &&& merged[i].file == sf.file
            &&& merged[i].lines == merge_lines(files[i].lines, sf.lines)
            &&& forall|k: int| 0 <= k < files.len() && k != i ==> merged[k] == files[k]
        }),
        find_file(files, sf.file) < 0 ==> merge_into(files, sf) == files.push(sf),
{
    lemma_find_file_props(files, sf.file);
}

/// Primary-file ordering: with a designated primary span, at least two
/// collated files, and the primary file present, the reordered list has
/// the primary span's file first and is otherwise the same list with two
/// entries swapped; with one file, no designated primary, or an absent
/// file, the order is unchanged.
pub proof fn lemma_primary_file_first(files: Seq<SpecFile>, span: MultiSpan)
    ensures
        files.len() <= 1 ==> reorder_primary(files, span) == files,
        span.spec_primary_span() is None ==> reorder_primary(files, span) == files,
        (span.spec_primary_span() matches Some(ps) && files.len() > 1 && find_file(files, ps.file)
            >= 0) ==> ({
            let ps = span.spec_primary_span()->Some_0;
            let i = find_file(files, ps.file);
            let r = reorder_primary(files, span);
            &&& r.len() == files.len()
            &&& r[0].file == ps.file
            &&& r[0] == files[i]
            &&& r[i] == files[0]
            &&& forall|k: int| 0 <= k < files.len() && k != 0 && k != i ==> r[k] == files[k]
        }),
        (span.spec_primary_span() matches Some(ps) && find_file(files, ps.file) < 0)
            ==> reorder_primary(files, span) == files,
{
    match span.spec_primary_span() {
        Some(ps) => {
            lemma_find_file_props(files, ps.file);
        },
        None => (),
    }
}

/// Applies a sub-diagnostic's defaults to every annotation of a list.
fn apply_sub_meta_anns(anns: Vec<Annotation>, lv: Level, lbl: &String) -> (r: Vec<Annotation>)
    ensures
        r@ == anns@.map_values(|a: Annotation| apply_meta_ann(a, lv, *lbl)),
{
    let ghost orig = anns@;
    let mut src = anns;
    let mut out: Vec<Annotation> = Vec::new();
    proof {
        assert(orig.take(0).map_values(|a: Annotation| apply_meta_ann(a, lv, *lbl)) =~= out@);
        assert(orig.skip(0) =~= src@);
    }
    let ghost mut k: int = 0;
    while src.len() > 0
        invariant
            0 <= k <= orig.len(),
            src@ == orig.skip(k),
            out@ == orig.take(k).map_values(|a: Annotation| apply_meta_ann(a, lv, *lbl)),
        decreases src@.len(),
    {
        let a = src.remove(0);
        proof {
            assert(orig.skip(k)[0] == orig[k]);
            assert(orig.skip(k).remove(0) =~= orig.skip(k + 1));
        }
        let label = if a.is_primary && a.label.is_none() {
            Some(lbl.clone())
        } else {
            a.label
        };
        let level = Some(
            match a.level {
                Some(l) => l,
                None => lv,
            },
        );
        out.push(Annotation { kind: a.kind, is_primary: a.is_primary, label, level });
        proof {
            assert(orig.take(k + 1) =~= orig.take(k).push(orig[k]));
            assert(out@ =~= orig.take(k + 1).map_values(
                |x: Annotation| apply_meta_ann(x, lv, *lbl),
            ));
            k = k + 1;
        }
    }
    proof {
        assert(orig.take(orig.len() as int) =~= orig);
    }
    out
}

/// Applies a sub-diagnostic's severity and label defaults to every
/// fragment of a resolved file, as the collation step requires.
fn apply_sub_meta_file(f: FileWithAnnotatedLines, lv: Level, lbl: &String) -> (r:
    FileWithAnnotatedLines)
    ensures
        file_view(r) == apply_meta_file(file_view(f), lv, *lbl),
{
    let FileWithAnnotatedLines { file, lines } = f;
    let ghost orig = lines@;
    let mut src = lines;
    let mut out: Vec<Line> = Vec::new();
    let ghost mut k: int = 0;
    while src.len() > 0
        invariant
            0 <= k <= orig.len(),
            src@ == orig.skip(k),
            out@.len() == k,
            forall|idx: int|
                0 <= idx < k ==> line_view(#[trigger] out@[idx]) == apply_meta_line(
                    line_view(orig[idx]),
                    lv,
                    *lbl,
                ),
        decreases src@.len(),
    {
        let l = src.remove(0);
        proof {
            assert(orig.skip(k)[0] == orig[k]);
            assert(orig.skip(k).remove(0) =~= orig.skip(k + 1));
        }
        let annotations = apply_sub_meta_anns(l.annotations, lv, lbl);
        out.push(Line { line_index: l.line_index, annotations });
        proof {
            assert(line_view(out@[k]) == apply_meta_line(line_view(orig[k]), lv, *lbl));
            k = k + 1;
        }
    }
    proof {
        let target = file_view(f).lines.map_values(|l: SpecLine| apply_meta_line(l, lv, *lbl));
        assert forall|idx: int| 0 <= idx < out@.len() implies lines_view(out@)[idx] == target[idx] by {
            assert(lines_view(out@)[idx] == line_view(out@[idx]));
            assert(file_view(f).lines[idx] == line_view(orig[idx]));
        }
        assert(lines_view(out@) =~= target);
    }
    FileWithAnnotatedLines { file, lines: out }
}

/// Stable two-list merge of sorted line lists, keeping arrival order on
/// equal line indices: the receiving file's lines come first.
fn merge_line_lists(a: Vec<Line>, b: Vec<Line>) -> (r: Vec<Line>)
    ensures
        lines_view(r@) == merge_lines(lines_view(a@), lines_view(b@)),
{
    let ghost va = lines_view(a@);
    let ghost vb = lines_view(b@);
    let mut x = a;
    let mut y = b;
    let mut out: Vec<Line> = Vec::new();
    proof {
        assert(lines_view(out@) + merge_lines(lines_view(x@), lines_view(y@)) =~= merge_lines(
            va,
            vb,
        ));
    }
    while x.len() > 0 && y.len() > 0
        invariant
            lines_view(out@) + merge_lines(lines_view(x@), lines_view(y@)) == merge_lines(va, vb),
        decreases x@.len() + y@.len(),
    {
        let ghost vx = lines_view(x@);
        let ghost vy = lines_view(y@);
        if x[0].line_index <= y[0].line_index {
            let l = x.remove(0);
            out.push(l);
            proof {
                assert(vx[0] == line_view(x@.insert(0, l)[0]));
                assert(lines_view(x@) =~= vx.drop_first());
                assert(merge_lines(vx, vy) == seq![vx[0]] + merge_lines(vx.drop_first(), vy));
                assert(lines_view(out@) =~= lines_view(out@.drop_last()) + seq![vx[0]]);
                assert(lines_view(out@) + merge_lines(lines_view(x@), lines_view(y@)) =~= merge_lines(
                    va,
                    vb,
                ));
            }
        } else {
            let l = y.remove(0);
            out.push(l);
            proof {
                assert(lines_view(y@) =~= vy.drop_first());
                assert(merge_lines(vx, vy) == seq![vy[0]] + merge_lines(vx, vy.drop_first()));
                assert(lines_view(out@) =~= lines_view(out@.drop_last()) + seq![vy[0]]);
                assert(lines_view(out@) + merge_lines(lines_view(x@), lines_view(y@)) =~= merge_lines(
                    va,
                    vb,
                ));
            }
        }
    }
    while x.len() > 0
        invariant
            lines_view(out@) + merge_lines(lines_view(x@), lines_view(y@)) == merge_lines(va, vb),
            x@.len() == 0 || y@.len() == 0,
        decreases x@.len(),
    {
        let ghost vx = lines_view(x@);
        let l = x.remove(0);
        out.push(l);
        proof {
            assert(lines_view(x@) =~= vx.drop_first());
            assert(merge_lines(vx, lines_view(y@)) == vx);
            assert(vx =~= seq![vx[0]] + vx.drop_first());
            assert(merge_lines(vx.drop_first(), lines_view(y@)) == vx.drop_first());
            assert(lines_view(out@) =~= lines_view(out@.drop_last()) + seq![vx[0]]);
            assert(lines_view(out@) + merge_lines(lines_view(x@), lines_view(y@)) =~= merge_lines(
                va,
                vb,
            ));
        }
    }
    while y.len() > 0
        invariant
            lines_view(out@) + merge_lines(lines_view(x@), lines_view(y@)) == merge_lines(va, vb),
            x@.len() == 0,
        decreases y@.len(),
    {
        proof {
            assert(x@.len() == 0);
        }
        let ghost vy = lines_view(y@);
        let l = y.remove(0);
        out.push(l);
        proof {
            assert(lines_view(y@) =~= vy.drop_first());
            assert(merge_lines(lines_view(x@), vy) == vy);
            assert(vy =~= seq![vy[0]] + vy.drop_first());
            assert(merge_lines(lines_view(x@), vy.drop_first()) == vy.drop_first());
            assert(lines_view(out@) =~= lines_view(out@.drop_last()) + seq![vy[0]]);
            assert(lines_view(out@) + merge_lines(lines_view(x@), lines_view(y@)) =~= merge_lines(
                va,
                vb,
            ));
        }
    }
    proof {
        assert(merge_lines(lines_view(x@), lines_view(y@)) =~= Seq::<SpecLine>::empty());
        assert(lines_view(out@) + Seq::<SpecLine>::empty() =~= lines_view(out@));
    }
    out
}


/// What the collated file list must satisfy for snippet building: every
/// entry names a real file, has at least one annotated line, and its
/// fragments respect the resolver's discipline.
pub open spec fn file_ok(sm: SourceMap, f: SpecFile) -> bool {
    &&& (f.file as int) < sm.files@.len()
    &&& f.lines.len() > 0
    &&& lines_wf(f.lines, sm.files@[f.file as int])
    &&& frags_ok(fragments_of(f.lines), None)
}

pub open spec fn spec_files_ok(sm: SourceMap, files: Seq<SpecFile>) -> bool {
    forall|i: int| 0 <= i < files.len() ==> file_ok(sm, #[trigger] files[i])
}

pub open spec fn subres_views(s: Seq<Vec<FileWithAnnotatedLines>>) -> Seq<Seq<SpecFile>> {
    s.map_values(|v: Vec<FileWithAnnotatedLines>| files_view(v@))
}

/// What the snippet built for one collated file satisfies: it is the
/// file's reconstructed snippet, and every annotation's byte range is an
/// ordered, in-bounds range of the excerpt text.
pub open spec fn snippet_ok(s: OwnedSnippet, sm: SourceMap, f: SpecFile, default: Level) -> bool {
    &&& is_snippet_for(s, sm, f.file as int, f.lines, default)
    &&& anns_valid(
        s.annotations@,
        sm.files@[f.file as int],
        f.lines[0].line_index as int,
        f.lines[f.lines.len() - 1].line_index as int,
    )
}

/// Position of the first entry for file `id`, matching by file identity.
fn find_file_pos(files: &Vec<FileWithAnnotatedLines>, id: usize) -> (r: Option<usize>)
    ensures
        match r {
            Some(p) => p < files@.len() && find_file(files_view(files@), id) == p,
            None => find_file(files_view(files@), id) < 0,
        },
{
    let n = files.len();
    let mut t: usize = 0;
    while t < n
        invariant
            t <= n,
            n == files@.len(),
            forall|k: int| 0 <= k < t ==> (#[trigger] files_view(files@)[k]).file != id,
        decreases n - t,
    {
        if files[t].file == id {
            proof {
                lemma_find_file_props(files_view(files@), id);
                assert(files_view(files@)[t as int] == file_view(files@[t as int]));
                assert(files_view(files@)[t as int].file == id);
            }
            return Some(t);
        }
        proof {
            assert(files_view(files@)[t as int] == file_view(files@[t as int]));
        }
        t = t + 1;
    }
    proof {
        lemma_find_file_props(files_view(files@), id);
    }
    None
}

/// Reorders a resolved file list so that the primary span's file comes
/// first: when the span set designates a primary sub-span and more than
/// one file is present, that file is swapped to the front; otherwise the
/// list is returned unchanged.
pub fn collect_files(msp: &MultiSpan, annotated_files: Vec<FileWithAnnotatedLines>) -> (r: Vec<
    FileWithAnnotatedLines,
>)
    requires
        msp.wf(),
    ensures
        files_view(r@) == reorder_primary(files_view(annotated_files@), *msp),
{
    let ghost v0 = files_view(annotated_files@);
    let mut files = annotated_files;
    let ps_opt = msp.primary_span();
    match ps_opt {
        Some(ps) => {
            if files.len() > 1 {
                match find_file_pos(&files, ps.file) {
                    Some(pos) => {
                        if pos > 0 {
                            let first = files.remove(0);
                            let target = files.remove(pos - 1);
                            files.insert(0, target);
                            files.insert(pos, first);
                            proof {
                                let goal = v0.update(0, v0[pos as int]).update(pos as int, v0[0]);
                                assert forall|k: int|
                                    0 <= k < goal.len() implies files_view(files@)[k] == goal[k] by {
                                    assert(files_view(files@)[k] == file_view(files@[k]));
                                }
                                assert(files_view(files@) =~= goal);
                            }
                        }
                    },
                    None => (),
                }
            }
        },
        None => (),
    }
    files
}

/// Builds the final ordered snippet list for a diagnostic from the
/// resolved fragment lists of its own spans (`main_files`) and of each of
/// its sub-diagnostics (`sub_files`, one list per sub-diagnostic, in
/// order): the primary file is moved to the front, each sub-diagnostic's
/// files get its severity and label defaults and are merged in by file
/// identity, and every collated file is turned into a snippet with the
/// diagnostic's severity as default.
pub fn collect(
    sm: &SourceMap,
    diagnostic: &Diagnostic,
    main_files: Vec<FileWithAnnotatedLines>,
    sub_files: Vec<Vec<FileWithAnnotatedLines>>,
) -> (r: Vec<OwnedSnippet>)
    requires
        sm.wf(),
        diagnostic.wf(),
        sub_files@.len() == diagnostic.children@.len(),
        spec_files_ok(
            *sm,
            collated_files(*diagnostic, files_view(main_files@), subres_views(sub_files@)),
        ),
    ensures
        ({
            let collated = collated_files(
                *diagnostic,
                files_view(main_files@),
                subres_views(sub_files@),
            );
            &&& r@.len() == collated.len()
            &&& forall|i: int|
                0 <= i < collated.len() ==> snippet_ok(
                    #[trigger] r@[i],
                    *sm,
                    collated[i],
                    diagnostic.level,
                )
        }),
{
    let ghost main_v = files_view(main_files@);
    let ghost subs_v = subres_views(sub_files@);
    let ghost init = reorder_primary(main_v, diagnostic.span);
    let mut files = collect_files(&diagnostic.span, main_files);
    let mut subres = sub_files;
    let nchildren = diagnostic.children.len();
    proof {
        assert(diagnostic.children@.take(0) =~= Seq::<SubDiagnostic>::empty());
        assert(subs_v.take(0) =~= Seq::<Seq<SpecFile>>::empty());
        assert forall|k: int| 0 <= k < subres@.len() implies files_view(
            (#[trigger] subres@[k])@,
        ) == subs_v[k] by {
            assert(subres_views(subres@)[k] == files_view(subres@[k]@));
        }
    }
    let mut idx: usize = 0;
    while idx < nchildren
        invariant
            sm.wf(),
            diagnostic.wf(),
            nchildren == diagnostic.children@.len(),
            idx <= nchildren,
            subs_v.len() == nchildren,
            subres@.len() == nchildren - idx,
            forall|k: int|
                0 <= k < subres@.len() ==> files_view((#[trigger] subres@[k])@) == subs_v[idx + k],
            files_view(files@) == collate(
                init,
                diagnostic.children@.take(idx as int),
                subs_v.take(idx as int),
            ),
        decreases nchildren - idx,
    {
        let ghost subres_pre = subres@;
        let sub_list = subres.remove(0);
        let sub = &diagnostic.children[idx];
        proof {
            assert(files_view(sub_list@) == subs_v[idx as int]);
            assert forall|k: int| 0 <= k < subres@.len() implies files_view(
                (#[trigger] subres@[k])@,
            ) == subs_v[idx + 1 + k] by {
                assert(subres@[k] == subres_pre.remove(0)[k]);
                assert(subres_pre.remove(0)[k] == subres_pre[k + 1]);
            }
            assert(diagnostic.children@[idx as int].span.wf());
        }
        let sfs = collect_files(&sub.span, sub_list);
        let ghost sv = reorder_primary(subs_v[idx as int], diagnostic.children@[idx as int].span);
        let ghost entry_files = files_view(files@);
        let mut rest = sfs;
        let ghost mut k2: int = 0;
        proof {
            assert(sv.take(0) =~= Seq::<SpecFile>::empty());
            assert(files_view(rest@) == sv);
            assert forall|k: int| 0 <= k < rest@.len() implies file_view(
                #[trigger] rest@[k],
            ) == sv[k] by {
                assert(files_view(rest@)[k] == file_view(rest@[k]));
            }
            assert(rest@.len() == sv.len());
        }
        while rest.len() > 0
            invariant
                sm.wf(),
                nchildren == diagnostic.children@.len(),
                idx < nchildren,
                0 <= k2 <= sv.len(),
                *sub == diagnostic.children@[idx as int],
                rest@.len() == sv.len() - k2,
                forall|k: int|
                    0 <= k < rest@.len() ==> file_view(#[trigger] rest@[k]) == sv[k2 + k],
                files_view(files@) == merge_one_sub(
                    entry_files,
                    diagnostic.children@[idx as int],
                    sv.take(k2),
                ),
            decreases rest@.len(),
        {
            let ghost rest_pre = rest@;
            let ghost files_pre = files_view(files@);
            let sf = rest.remove(0);
            proof {
                assert(file_view(sf) == sv[k2]);
                assert forall|k: int| 0 <= k < rest@.len() implies file_view(
                    #[trigger] rest@[k],
                ) == sv[k2 + 1 + k] by {
                    assert(rest@[k] == rest_pre.remove(0)[k]);
                    assert(rest_pre.remove(0)[k] == rest_pre[k + 1]);
                }
            }
            let sf2 = apply_sub_meta_file(sf, sub.level, &sub.label);
            let ghost sf2_v = file_view(sf2);
            proof {
                assert(sf2_v == apply_meta_file(sv[k2], sub.level, sub.label));
            }
            match find_file_pos(&files, sf2.file) {
                Some(p) => {
                    let ghost fpos = find_file(files_pre, sf2_v.file);
                    let ghost files_vec_pre = files@;
                    let existing = files.remove(p);
                    proof {
                        assert(file_view(existing) == files_pre[p as int]);
                    }
                    let merged = merge_line_lists(existing.lines, sf2.lines);
                    files.insert(p, FileWithAnnotatedLines { file: existing.file, lines: merged });
                    proof {
                        let goal = files_pre.update(
                            fpos,
                            SpecFile {
                                file: sf2_v.file,
                                lines: merge_lines(files_pre[fpos].lines, sf2_v.lines),
                            },
                        );
                        let newf = files@[p as int];
                        lemma_find_file_props(files_pre, sf2_v.file);
                        assert(files_pre[p as int].file == sf2_v.file);
                        assert(files@ =~= files_vec_pre.update(p as int, newf));
                        assert(file_view(newf) == SpecFile {
                            file: sf2_v.file,
                            lines: merge_lines(files_pre[fpos].lines, sf2_v.lines),
                        });
                        assert forall|k: int|
                            0 <= k < goal.len() implies files_view(files@)[k] == goal[k] by {
                            assert(files_view(files@)[k] == file_view(files@[k]));
                            assert(files_pre[k] == file_view(files_vec_pre[k]));
                        }
                        assert(files_view(files@) =~= goal);
                        assert(files_view(files@) == merge_into(files_pre, sf2_v));
                    }
                },
                None => {
                    files.push(sf2);
                    proof {
                        assert forall|k: int|
                            0 <= k < files_pre.len() + 1 implies files_view(files@)[k]
                            == files_pre.push(sf2_v)[k] by {
                            assert(files_view(files@)[k] == file_view(files@[k]));
                        }
                        assert(files_view(files@) =~= files_pre.push(sf2_v));
                        assert(files_view(files@) == merge_into(files_pre, sf2_v));
                    }
                },
            }
            proof {
                assert(sv.take(k2 + 1).drop_last() =~= sv.take(k2));
                assert(sv.take(k2 + 1).last() == sv[k2]);
                assert(files_view(files@) == merge_one_sub(
                    entry_files,
                    diagnostic.children@[idx as int],
                    sv.take(k2 + 1),
                ));
                k2 = k2 + 1;
            }
        }
        proof {
            assert(sv.take(sv.len() as int) =~= sv);
            assert(diagnostic.children@.take(idx as int + 1).drop_last()
                =~= diagnostic.children@.take(idx as int));
            assert(subs_v.take(idx as int + 1).drop_last() =~= subs_v.take(idx as int));
            assert(diagnostic.children@.take(idx as int + 1).last() == diagnostic.children@[
                idx as int
            ]);
            assert(subs_v.take(idx as int + 1).last() == subs_v[idx as int]);
            assert(files_view(files@) == collate(
                init,
                diagnostic.children@.take(idx as int + 1),
                subs_v.take(idx as int + 1),
            ));
        }
        idx = idx + 1;
    }
    proof {
        assert(diagnostic.children@.take(nchildren as int) =~= diagnostic.children@);
        assert(subs_v.take(nchildren as int) =~= subs_v);
    }
    let ghost collated = files_view(files@);
    let mut out: Vec<OwnedSnippet> = Vec::new();
    let nf = files.len();
    let mut q: usize = 0;
    while q < nf
        invariant
            sm.wf(),
            q <= nf,
            nf == files@.len(),
            files_view(files@) == collated,
            spec_files_ok(*sm, collated),
            out@.len() == q,
            forall|i: int|
                0 <= i < q ==> snippet_ok(#[trigger] out@[i], *sm, collated[i], diagnostic.level),
        decreases nf - q,
    {
        let f = &files[q];
        proof {
            assert(file_ok(*sm, collated[q as int]));
            assert(files_view(files@)[q as int] == file_view(files@[q as int]));
        }
        let s = file_to_snippet(sm, f.file, &f.lines, diagnostic.level);
        out.push(s);
        q = q + 1;
    }
    out
}

} // verus!
