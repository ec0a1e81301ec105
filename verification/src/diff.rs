//! Line-level diff engine with bounded-context rendering.
//!
//! Both texts are split into lines (each line keeps its terminating newline,
//! mirroring how the diff computation tokenizes its input). The minimal edit
//! script between the two line sequences comes from the histogram diff
//! algorithm of the `imara_diff` crate, reached through one trusted wrapper;
//! everything around it — the line splitting, the context-window selection
//! and the rendering — is verified against an exact character-level
//! specification.
//!
//! The rendering walks the changed regions in order: unchanged lines within
//! the configured context window are rendered unmarked, deleted lines carry
//! a `-` marker, inserted lines a `+` marker, and (optionally) the very
//! first and last line of the compared text are always surfaced.

use vstd::prelude::*;
use vstd::string::*;

verus! {

/// Rendering configuration: how many unchanged lines to show before and
/// after each changed region, and whether the first and last line of the
/// compared text are always surfaced.
#[derive(Clone, Copy)]
pub struct DiffBuildConfig {
    pub lines_before: usize,
    pub lines_after: usize,
    pub print_first_and_last_lines: bool,
}

/// One changed region: lines `before_start..before_end` of the old text
/// were replaced by lines `after_start..after_end` of the new text.
#[derive(Clone, Copy)]
pub struct DiffHunk {
    pub before_start: usize,
    pub before_end: usize,
    pub after_start: usize,
    pub after_end: usize,
}

impl View for DiffHunk {
    type V = (int, int, int, int);

    open spec fn view(&self) -> (int, int, int, int) {
        (self.before_start as int, self.before_end as int, self.after_start as int,
        self.after_end as int)
    }
}

/// How one rendered line is marked.
#[derive(Clone, Copy, PartialEq, Eq, Debug)]
pub enum DiffLineKind {
    Context,
    Delete,
    Insert,
}

pub open spec fn lines_views(s: Seq<String>) -> Seq<Seq<char>> {
    s.map_values(|l: String| l@)
}

pub open spec fn hunk_views(s: Seq<DiffHunk>) -> Seq<(int, int, int, int)> {
    s.map_values(|h: DiffHunk| h@)
}

/// Length of the first line of `s`: up to and including the first newline,
/// or all of `s` when it holds none.
pub open spec fn spec_line_len(s: Seq<char>) -> int
    decreases s.len(),
{
    if s.len() == 0 {
        0
    } else if s[0] == '\n' {
        1
    } else {
        1 + spec_line_len(s.skip(1))
    }
}

proof fn lemma_line_len_bounds(s: Seq<char>)
    requires
        s.len() > 0,
    ensures
        1 <= spec_line_len(s) <= s.len(),
    decreases s.len(),
{
    if s[0] != '\n' {
        if s.len() == 1 {
            reveal_with_fuel(spec_line_len, 2);
            assert(s.skip(1).len() == 0);
        } else {
            lemma_line_len_bounds(s.skip(1));
        }
    }
}

/// The lines of a text, in order; every line except possibly the last ends
/// with a newline, and an empty text has no lines.
pub open spec fn spec_lines(s: Seq<char>) -> Seq<Seq<char>>
    decreases s.len(),
{
    if s.len() == 0 {
        Seq::empty()
    } else {
        let l = spec_line_len(s);
        if 1 <= l <= s.len() {
            seq![s.take(l)] + spec_lines(s.skip(l))
        } else {
            Seq::empty()
        }
    }
}

proof fn lemma_line_len_from_scan(s: Seq<char>, j: int)
    requires
        s.len() > 0,
        0 <= j <= s.len(),
        forall|t: int| 0 <= t < j ==> s[t] != '\n',
        j < s.len() ==> s[j] == '\n',
    ensures
        spec_line_len(s) == if j < s.len() {
            j + 1
        } else {
            j
        },
    decreases j,
{
    if j > 0 {
        assert(s[0] != '\n');
        if s.len() == 1 {
            reveal_with_fuel(spec_line_len, 2);
            assert(s.skip(1).len() == 0);
        } else {
            let tail = s.skip(1);
            assert forall|t: int| 0 <= t < j - 1 implies tail[t] != '\n' by {
                assert(s[t + 1] != '\n');
            }
            assert(j - 1 < tail.len() ==> tail[j - 1] == '\n');
            lemma_line_len_from_scan(tail, j - 1);
        }
    }
}

/// The lines of `text`, each line keeping its terminating newline; the last
/// line may lack one.
pub fn split_lines(text: &str) -> (r: Vec<String>)
    ensures
        lines_views(r@) == spec_lines(text@),
{
    let mut r: Vec<String> = Vec::new();
    let n = text.unicode_len();
    let mut pos: usize = 0;
    proof {
        assert(text@.skip(0) =~= text@);
        assert(lines_views(r@) =~= Seq::<Seq<char>>::empty());
        assert(Seq::<Seq<char>>::empty() + spec_lines(text@) =~= spec_lines(text@));
    }
    while pos < n
        invariant
            pos <= n,
            n == text@.len(),
            lines_views(r@) + spec_lines(text@.skip(pos as int)) == spec_lines(text@),
        decreases n - pos,
    {
        let ghost r0 = r@;
        let mut j: usize = pos;
        while j < n && text.get_char(j) != '\n'
            invariant
                pos <= j <= n,
                n == text@.len(),
                forall|t: int| pos <= t < j ==> text@[t] != '\n',
            decreases n - j,
        {
            j = j + 1;
        }
        let end = if j < n {
            j + 1
        } else {
            j
        };
        let line = text.substring_char(pos, end).to_owned();
        r.push(line);
        proof {
            let rest = text@.skip(pos as int);
            assert forall|t: int| 0 <= t < j - pos implies rest[t] != '\n' by {
                assert(text@[pos + t] != '\n');
            }
            lemma_line_len_from_scan(rest, j - pos);
            lemma_line_len_bounds(rest);
            assert(spec_line_len(rest) == end - pos);
            assert(rest.take((end - pos) as int) =~= text@.subrange(pos as int, end as int));
            assert(rest.skip((end - pos) as int) =~= text@.skip(end as int));
            assert(spec_lines(rest) == seq![text@.subrange(pos as int, end as int)] + spec_lines(
                text@.skip(end as int),
            ));
            assert(lines_views(r@) =~= lines_views(r0).push(line@));
            assert(lines_views(r0).push(line@) + spec_lines(text@.skip(end as int)) =~= lines_views(
                r0,
            ) + spec_lines(text@.skip(pos as int)));
        }
        pos = end;
    }
    proof {
        assert(text@.skip(n as int) =~= Seq::<char>::empty());
        assert(lines_views(r@) + Seq::<Seq<char>>::empty() =~= lines_views(r@));
    }
    r
}

/// The changed regions that the histogram diff algorithm reports for the
/// given line sequences, in increasing order. The algorithm is
/// deterministic, so its outcome is a function of the two line sequences
/// alone; nothing further is assumed about which regions it picks.
pub uninterp spec fn spec_histogram(before: Seq<Seq<char>>, after: Seq<Seq<char>>) -> Seq<
    (int, int, int, int),
>;

/// The structural facts the rendering relies on: every hunk lies within
/// both texts, changes something, and the hunks are strictly ordered with
/// equally long unchanged gaps on both sides.
pub open spec fn hunks_wf(hs: Seq<(int, int, int, int)>, nb: int, na: int) -> bool {
    &&& forall|k: int|
        0 <= k < hs.len() ==> {
            let h = #[trigger] hs[k];
            &&& 0 <= h.0 <= h.1 <= nb
            &&& 0 <= h.2 <= h.3 <= na
            &&& (h.0 < h.1 || h.2 < h.3)
        }
    &&& forall|k: int|
        0 <= k < hs.len() - 1 ==> (#[trigger] hs[k]).1 < hs[k + 1].0 && hs[k].3 < hs[k + 1].2
    &&& forall|k: int|
        0 <= k < hs.len() - 1 ==> (#[trigger] hs[k + 1]).0 - hs[k].1 == hs[k + 1].2 - hs[k].3
    &&& hs.len() > 0 ==> hs[0].0 == hs[0].2
    &&& hs.len() > 0 ==> nb - hs[hs.len() - 1].1 == na - hs[hs.len() - 1].3
}

/// Relies on `imara_diff`: `InternedInput::new` interns each text into its
/// lines with the newline terminator kept, `Diff::compute` with
/// `Algorithm::Histogram` flags removed and added lines, and `Diff::hunks`
/// yields the changed regions in strictly increasing order, advancing
/// through both texts in lockstep over the unchanged lines between them.
/// Identical token sequences strip down to a common prefix, leaving no
/// change to report. The algorithm refuses more tokens than fit an `i32`,
/// so texts of that size are excluded; a text never holds more lines than
/// characters.
#[verifier::external_body]
fn histogram_diff(before: &str, after: &str) -> (r: Vec<DiffHunk>)
    requires
        before@.len() < 0x7fff_ffff,
        after@.len() < 0x7fff_ffff,
    ensures
        hunk_views(r@) == spec_histogram(spec_lines(before@), spec_lines(after@)),
        hunks_wf(
            hunk_views(r@),
            spec_lines(before@).len() as int,
            spec_lines(after@).len() as int,
        ),
        spec_lines(before@) == spec_lines(after@) ==> r@.len() == 0,
{
    let input = imara_diff::InternedInput::new(before, after);
    let diff = imara_diff::Diff::compute(imara_diff::Algorithm::Histogram, &input);
    diff.hunks().map(|h| DiffHunk {
        before_start: h.before.start as usize,
        before_end: h.before.end as usize,
        after_start: h.after.start as usize,
        after_end: h.after.end as usize,
    }).collect()
}

/// Whether line `i` of the old text lies in the context window of the
/// changed region `h`: within `lines_before` lines above it or
/// `lines_after` lines below it.
pub open spec fn window_hit(h: (int, int, int, int), cfg: DiffBuildConfig, i: int) -> bool {
    ||| h.0 - cfg.lines_before <= i < h.0
    ||| h.1 <= i < h.1 + cfg.lines_after
}

/// Whether an unchanged line is rendered: it lies in some context window,
/// or it is the first or last line of the text and the configuration asks
/// for those always.
pub open spec fn selected(nb: int, hs: Seq<(int, int, int, int)>, cfg: DiffBuildConfig, i: int) -> bool {
    ||| (cfg.print_first_and_last_lines && (i == 0 || i == nb - 1))
    ||| exists|k: int| 0 <= k < hs.len() && window_hit(#[trigger] hs[k], cfg, i)
}

/// The unchanged lines of `b` with index in `[lo, hi)` that are rendered,
/// in order, each as an unmarked entry.
pub open spec fn ctx_entries(
    b: Seq<Seq<char>>,
    hs: Seq<(int, int, int, int)>,
    cfg: DiffBuildConfig,
    lo: int,
    hi: int,
) -> Seq<(DiffLineKind, Seq<char>)>
    decreases hi - lo,
{
    if lo >= hi {
        Seq::empty()
    } else {
        (if selected(b.len() as int, hs, cfg, lo) {
            seq![(DiffLineKind::Context, b[lo])]
        } else {
            Seq::empty()
        }) + ctx_entries(b, hs, cfg, lo + 1, hi)
    }
}

/// Lines `lo..hi` of `ls`, each marked `kind`.
pub open spec fn marked_entries(ls: Seq<Seq<char>>, kind: DiffLineKind, lo: int, hi: int) -> Seq<
    (DiffLineKind, Seq<char>),
> {
    Seq::new(if hi >= lo {
        (hi - lo) as nat
    } else {
        0nat
    }, |t: int| (kind, ls[lo + t]))
}

/// The rendered entries from hunk `k` on, with `cursor` the first old-text
/// line not yet dealt with: context up to the hunk, its deleted lines, its
/// inserted lines, then the rest; after the last hunk, trailing context.
pub open spec fn entries_from(
    b: Seq<Seq<char>>,
    a: Seq<Seq<char>>,
    hs: Seq<(int, int, int, int)>,
    cfg: DiffBuildConfig,
    k: int,
    cursor: int,
) -> Seq<(DiffLineKind, Seq<char>)>
    decreases hs.len() - k,
{
    if !(0 <= k < hs.len()) {
        ctx_entries(b, hs, cfg, cursor, b.len() as int)
    } else {
        let h = hs[k];
        ctx_entries(b, hs, cfg, cursor, h.0) + marked_entries(b, DiffLineKind::Delete, h.0, h.1)
            + marked_entries(a, DiffLineKind::Insert, h.2, h.3) + entries_from(
            b,
            a,
            hs,
            cfg,
            k + 1,
            h.1,
        )
    }
}

/// All rendered entries of a diff of line sequences `b` and `a`.
pub open spec fn spec_entries(
    b: Seq<Seq<char>>,
    a: Seq<Seq<char>>,
    hs: Seq<(int, int, int, int)>,
    cfg: DiffBuildConfig,
) -> Seq<(DiffLineKind, Seq<char>)> {
    entries_from(b, a, hs, cfg, 0, 0)
}

/// The two-character marker a rendered line starts with.
pub open spec fn marker_chars(kind: DiffLineKind) -> Seq<char> {
    match kind {
        DiffLineKind::Context => "  "@,
        DiffLineKind::Delete => "- "@,
        DiffLineKind::Insert => "+ "@,
    }
}

/// A rendered line always ends in a newline; one is added to a line that
/// lacks its own (the last line of a text may).
pub open spec fn line_chars(l: Seq<char>) -> Seq<char> {
    if l.len() > 0 && l[l.len() - 1] == '\n' {
        l
    } else {
        l.push('\n')
    }
}

pub open spec fn entry_chars(e: (DiffLineKind, Seq<char>)) -> Seq<char> {
    marker_chars(e.0) + line_chars(e.1)
}

/// The rendered text: each entry's marker followed by its line.
pub open spec fn entries_chars(es: Seq<(DiffLineKind, Seq<char>)>) -> Seq<char>
    decreases es.len(),
{
    if es.len() == 0 {
        Seq::empty()
    } else {
        entry_chars(es[0]) + entries_chars(es.skip(1))
    }
}

proof fn lemma_entries_chars_concat(e1: Seq<(DiffLineKind, Seq<char>)>, e2: Seq<(DiffLineKind, Seq<char>)>)
    ensures
        entries_chars(e1 + e2) == entries_chars(e1) + entries_chars(e2),
    decreases e1.len(),
{
    if e1.len() == 0 {
        assert(e1 + e2 =~= e2);
        assert(entries_chars(e1) + entries_chars(e2) =~= entries_chars(e2));
    } else {
        assert((e1 + e2).skip(1) =~= e1.skip(1) + e2);
        lemma_entries_chars_concat(e1.skip(1), e2);
        assert((e1 + e2)[0] == e1[0]);
        assert(entry_chars(e1[0]) + (entries_chars(e1.skip(1)) + entries_chars(e2)) =~= (entry_chars(
            e1[0],
        ) + entries_chars(e1.skip(1))) + entries_chars(e2));
    }
}

proof fn lemma_entries_chars_push(es: Seq<(DiffLineKind, Seq<char>)>, e: (DiffLineKind, Seq<char>))
    ensures
        entries_chars(es.push(e)) == entries_chars(es) + entry_chars(e),
{
    assert(es.push(e) =~= es + seq![e]);
    lemma_entries_chars_concat(es, seq![e]);
    assert(seq![e].skip(1) =~= Seq::<(DiffLineKind, Seq<char>)>::empty());
    assert(entry_chars(e) + entries_chars(Seq::<(DiffLineKind, Seq<char>)>::empty())
        =~= entry_chars(e));
    assert(entries_chars(seq![e]) =~= entry_chars(e));
}

proof fn lemma_ctx_entries_snoc(
    b: Seq<Seq<char>>,
    hs: Seq<(int, int, int, int)>,
    cfg: DiffBuildConfig,
    lo: int,
    i: int,
)
    requires
        lo <= i,
    ensures
        ctx_entries(b, hs, cfg, lo, i + 1) == ctx_entries(b, hs, cfg, lo, i) + (if selected(
            b.len() as int,
            hs,
            cfg,
            i,
        ) {
            seq![(DiffLineKind::Context, b[i])]
        } else {
            Seq::empty()
        }),
    decreases i - lo,
{
    let tail = if selected(b.len() as int, hs, cfg, i) {
        seq![(DiffLineKind::Context, b[i])]
    } else {
        Seq::<(DiffLineKind, Seq<char>)>::empty()
    };
    if lo == i {
        assert(ctx_entries(b, hs, cfg, i + 1, i + 1) =~= Seq::<(DiffLineKind, Seq<char>)>::empty());
        assert(ctx_entries(b, hs, cfg, lo, i + 1) =~= tail);
        assert(ctx_entries(b, hs, cfg, lo, i) =~= Seq::<(DiffLineKind, Seq<char>)>::empty());
        assert(ctx_entries(b, hs, cfg, lo, i) + tail =~= tail);
    } else {
        lemma_ctx_entries_snoc(b, hs, cfg, lo + 1, i);
        let head = if selected(b.len() as int, hs, cfg, lo) {
            seq![(DiffLineKind::Context, b[lo])]
        } else {
            Seq::<(DiffLineKind, Seq<char>)>::empty()
        };
        assert(head + (ctx_entries(b, hs, cfg, lo + 1, i) + tail) =~= (head + ctx_entries(
            b,
            hs,
            cfg,
            lo + 1,
            i,
        )) + tail);
    }
}

/// With no changed regions, every rendered entry is an unmarked context
/// line: rendering contains no insert or delete markers.
pub proof fn lemma_ctx_entries_all_context(
    b: Seq<Seq<char>>,
    hs: Seq<(int, int, int, int)>,
    cfg: DiffBuildConfig,
    lo: int,
    hi: int,
)
    ensures
        forall|j: int|
            0 <= j < ctx_entries(b, hs, cfg, lo, hi).len() ==> (#[trigger] ctx_entries(
                b,
                hs,
                cfg,
                lo,
                hi,
            )[j]).0 == DiffLineKind::Context,
    decreases hi - lo,
{
    if lo < hi {
        lemma_ctx_entries_all_context(b, hs, cfg, lo + 1, hi);
    }
}

/// A diff with no changed regions renders context lines only: no entry
/// carries an insert or delete marker.
pub proof fn lemma_no_hunks_no_markers(
    b: Seq<Seq<char>>,
    a: Seq<Seq<char>>,
    hs: Seq<(int, int, int, int)>,
    cfg: DiffBuildConfig,
)
    requires
        hs.len() == 0,
    ensures
        forall|j: int|
            0 <= j < spec_entries(b, a, hs, cfg).len() ==> (#[trigger] spec_entries(
                b,
                a,
                hs,
                cfg,
            )[j]).0 == DiffLineKind::Context,
{
    lemma_ctx_entries_all_context(b, hs, cfg, 0, b.len() as int);
}

fn is_selected(b_len: usize, hunks: &Vec<DiffHunk>, cfg: &DiffBuildConfig, i: usize) -> (r: bool)
    ensures
        r == selected(b_len as int, hunk_views(hunks@), *cfg, i as int),
{
    if cfg.print_first_and_last_lines && (i == 0 || (b_len > 0 && i == b_len - 1)) {
        return true;
    }
    let n = hunks.len();
    let mut k: usize = 0;
    while k < n
        invariant
            k <= n,
            n == hunks@.len(),
            forall|l: int| 0 <= l < k ==> !window_hit(#[trigger] hunk_views(hunks@)[l], *cfg, i as int),
        decreases n - k,
    {
        let h = &hunks[k];
        if (i < h.before_start && h.before_start - i <= cfg.lines_before) || (i >= h.before_end && i
            - h.before_end < cfg.lines_after) {
            proof {
                assert(window_hit(hunk_views(hunks@)[k as int], *cfg, i as int));
            }
            return true;
        }
        k = k + 1;
    }
    false
}

fn emit_line(out: &mut String, kind: DiffLineKind, line: &String)
    ensures
        final(out)@ == old(out)@ + entry_chars((kind, line@)),
{
    match kind {
        DiffLineKind::Context => out.append("  "),
        DiffLineKind::Delete => out.append("- "),
        DiffLineKind::Insert => out.append("+ "),
    }
    out.append(line.as_str());
    let n = line.as_str().unicode_len();
    if n == 0 || line.as_str().get_char(n - 1) != '\n' {
        out.append("\n");
        proof {
            reveal_strlit("\n");
            assert(line@.push('\n') =~= line@ + "\n"@);
        }
    }
    proof {
        assert(final(out)@ =~= old(out)@ + entry_chars((kind, line@)));
    }
}

fn emit_context(
    out: &mut String,
    b: &Vec<String>,
    hunks: &Vec<DiffHunk>,
    cfg: &DiffBuildConfig,
    lo: usize,
    hi: usize,
)
    requires
        lo <= hi <= b@.len(),
    ensures
        final(out)@ == old(out)@ + entries_chars(
            ctx_entries(lines_views(b@), hunk_views(hunks@), *cfg, lo as int, hi as int),
        ),
{
    let ghost base = out@;
    let mut i = lo;
    while i < hi
        invariant
            lo <= i <= hi <= b@.len(),
            out@ == base + entries_chars(
                ctx_entries(lines_views(b@), hunk_views(hunks@), *cfg, lo as int, i as int),
            ),
        decreases hi - i,
    {
        let ghost pre = ctx_entries(lines_views(b@), hunk_views(hunks@), *cfg, lo as int, i as int);
        if is_selected(b.len(), hunks, cfg, i) {
            emit_line(out, DiffLineKind::Context, &b[i]);
            proof {
                lemma_entries_chars_push(pre, (DiffLineKind::Context, b@[i as int]@));
                lemma_ctx_entries_snoc(
                    lines_views(b@),
                    hunk_views(hunks@),
                    *cfg,
                    lo as int,
                    i as int,
                );
                assert(pre.push((DiffLineKind::Context, b@[i as int]@)) =~= pre + seq![
                    (DiffLineKind::Context, lines_views(b@)[i as int]),
                ]);
            }
        } else {
            proof {
                lemma_ctx_entries_snoc(
                    lines_views(b@),
                    hunk_views(hunks@),
                    *cfg,
                    lo as int,
                    i as int,
                );
                assert(pre + Seq::<(DiffLineKind, Seq<char>)>::empty() =~= pre);
            }
        }
        i = i + 1;
    }
}

fn emit_marked(out: &mut String, ls: &Vec<String>, kind: DiffLineKind, lo: usize, hi: usize)
    requires
        lo <= hi <= ls@.len(),
    ensures
        final(out)@ == old(out)@ + entries_chars(
            marked_entries(lines_views(ls@), kind, lo as int, hi as int),
        ),
{
    let ghost base = out@;
    let mut i = lo;
    while i < hi
        invariant
            lo <= i <= hi <= ls@.len(),
            out@ == base + entries_chars(marked_entries(lines_views(ls@), kind, lo as int, i as int)),
        decreases hi - i,
    {
        let ghost pre = marked_entries(lines_views(ls@), kind, lo as int, i as int);
        emit_line(out, kind, &ls[i]);
        proof {
            lemma_entries_chars_push(pre, (kind, ls@[i as int]@));
            assert(marked_entries(lines_views(ls@), kind, lo as int, i as int + 1) =~= pre.push(
                (kind, lines_views(ls@)[i as int]),
            ));
        }
        i = i + 1;
    }
    proof {
        if lo == hi {
            assert(marked_entries(lines_views(ls@), kind, lo as int, hi as int) =~= Seq::<
                (DiffLineKind, Seq<char>),
            >::empty());
        }
    }
}

/// Renders an edit script over the given line sequences. This is the
/// verified heart of the diff engine: whatever changed regions the diff
/// computation reports, the rendering is exactly the specified walk of
/// context, deleted and inserted lines.
pub fn render_diff(
    before_lines: &Vec<String>,
    after_lines: &Vec<String>,
    hunks: &Vec<DiffHunk>,
    config: &DiffBuildConfig,
) -> (r: String)
    requires
        hunks_wf(hunk_views(hunks@), before_lines@.len() as int, after_lines@.len() as int),
    ensures
        r@ == entries_chars(
            spec_entries(
                lines_views(before_lines@),
                lines_views(after_lines@),
                hunk_views(hunks@),
                *config,
            ),
        ),
{
    let ghost bv = lines_views(before_lines@);
    let ghost av = lines_views(after_lines@);
    let ghost hv = hunk_views(hunks@);
    let mut out = String::new();
    let mut cursor: usize = 0;
    let mut k: usize = 0;
    while k < hunks.len()
        invariant
            hunks_wf(hv, bv.len() as int, av.len() as int),
            bv == lines_views(before_lines@),
            av == lines_views(after_lines@),
            hv == hunk_views(hunks@),
            k <= hunks@.len(),
            k < hunks@.len() ==> cursor <= hv[k as int].0,
            cursor <= before_lines@.len(),
            out@ + entries_chars(entries_from(bv, av, hv, *config, k as int, cursor as int))
                == entries_chars(spec_entries(bv, av, hv, *config)),
        decreases hunks@.len() - k,
    {
        let bs = hunks[k].before_start;
        let be = hunks[k].before_end;
        let as_ = hunks[k].after_start;
        let ae = hunks[k].after_end;
        let ghost pre = out@;
        let ghost c1 = ctx_entries(bv, hv, *config, cursor as int, bs as int);
        let ghost d1 = marked_entries(bv, DiffLineKind::Delete, bs as int, be as int);
        let ghost i1 = marked_entries(av, DiffLineKind::Insert, as_ as int, ae as int);
        let ghost rest = entries_from(bv, av, hv, *config, k as int + 1, be as int);
        emit_context(&mut out, before_lines, hunks, config, cursor, bs);
        emit_marked(&mut out, before_lines, DiffLineKind::Delete, bs, be);
        emit_marked(&mut out, after_lines, DiffLineKind::Insert, as_, ae);
        proof {
            assert(entries_from(bv, av, hv, *config, k as int, cursor as int) == c1 + d1 + i1
                + rest);
            lemma_entries_chars_concat(c1 + d1 + i1, rest);
            lemma_entries_chars_concat(c1 + d1, i1);
            lemma_entries_chars_concat(c1, d1);
            assert((c1 + d1) + i1 =~= c1 + d1 + i1);
            assert(out@ =~= pre + entries_chars(c1) + entries_chars(d1) + entries_chars(i1));
            assert(out@ + entries_chars(rest) =~= pre + entries_chars(
                entries_from(bv, av, hv, *config, k as int, cursor as int),
            ));
        }
        cursor = be;
        k = k + 1;
    }
    emit_context(&mut out, before_lines, hunks, config, cursor, before_lines.len());
    out
}

/// The full rendering of the diff of two texts under the given
/// configuration.
pub open spec fn spec_diff(before: Seq<char>, after: Seq<char>, cfg: DiffBuildConfig) -> Seq<char> {
    entries_chars(
        spec_entries(
            spec_lines(before),
            spec_lines(after),
            spec_histogram(spec_lines(before), spec_lines(after)),
            cfg,
        ),
    )
}

/// Computes and renders a human-readable line diff of two texts. Equal
/// texts yield no changed region at all, so by
/// [`lemma_no_hunks_no_markers`] their rendering holds context lines only.
pub fn diff(before: &str, after: &str, config: &DiffBuildConfig) -> (r: String)
    requires
        before@.len() < 0x7fff_ffff,
        after@.len() < 0x7fff_ffff,
    ensures
        r@ == spec_diff(before@, after@, *config),
        before@ == after@ ==> spec_histogram(spec_lines(before@), spec_lines(after@)).len() == 0,
{
    let before_lines = split_lines(before);
    let after_lines = split_lines(after);
    let hunks = histogram_diff(before, after);
    render_diff(&before_lines, &after_lines, &hunks, config)
}

/// The rendering configuration the host's assertion-failure messages use:
/// two lines of context on both sides, first and last line always shown.
pub fn default_diff_config() -> (r: DiffBuildConfig)
    ensures
        r.lines_before == 2,
        r.lines_after == 2,
        r.print_first_and_last_lines,
{
    DiffBuildConfig { lines_before: 2, lines_after: 2, print_first_and_last_lines: true }
}

/// Renders the diff of two texts under the host's fixed configuration, as
/// assertion-failure messages show it.
pub fn diff_str(before: &str, after: &str) -> (r: String)
    requires
        before@.len() < 0x7fff_ffff,
        after@.len() < 0x7fff_ffff,
    ensures
        r@ == spec_diff(
            before@,
            after@,
            DiffBuildConfig { lines_before: 2, lines_after: 2, print_first_and_last_lines: true },
        ),
{
    let config = default_diff_config();
    diff(before, after, &config)
}

} // verus!
