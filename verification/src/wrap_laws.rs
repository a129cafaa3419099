//! What holds of every wrapped text.

use vstd::prelude::*;

use crate::text::{
    flatten, group_spans, initial_model, lemma_flatten_concat, lemma_flatten_single, line_metrics,
    merge_metrics, model_new_line, model_push_group, model_run, placed, spans_width,
    trim_trailing_whitespace, wrapped_groups, wrapped_lines, breaks_line, Alignment, GroupModel,
    LineModel, MeasuredTextInfo, PreparedSpan, TextMetrics, TextWrap, WrapModel, groups_model,
    lemma_spans_width_concat, WRAP_TOLERANCE, lemma_spans_abs_bounds, lemma_unaligned_bounded,
    line_width, unaligned_lines, wrap_fits, model_finish, spans_abs_width, lemma_spans_abs_prefix,
};

verus! {

/// Each span of `line` sits right after the spans before it: its location is
/// the sum of their widths.
pub open spec fn line_is_placed<S>(line: LineModel<S>) -> bool {
    forall|i: int|
        0 <= i < line.spans.len() ==> #[trigger] line.spans[i].location == spans_width(
            line.spans.take(i),
        ) as i64
}

/// `metrics` are at least as tall, deep and widely spaced as `m`.
pub open spec fn covers(metrics: TextMetrics, m: TextMetrics) -> bool {
    &&& metrics.ascent >= m.ascent
    &&& metrics.descent <= m.descent
    &&& metrics.line_gap >= m.line_gap
}

/// The metrics of `line` cover those of each of its spans.
pub open spec fn line_covers_spans<S>(line: LineModel<S>) -> bool {
    forall|i: int| 0 <= i < line.spans.len() ==> covers(line.metrics, #[trigger] line.spans[i].metrics)
}

pub open spec fn lines_well_formed<S>(lines: Seq<LineModel<S>>) -> bool {
    forall|i: int| 0 <= i < lines.len() ==> line_is_placed(#[trigger] lines[i]) && line_covers_spans(lines[i])
}

/// What a span holds apart from its location.
pub open spec fn span_content<S>(span: PreparedSpan<S>) -> (S, TextMetrics) {
    (span.source, span.metrics)
}

pub open spec fn contents<S>(spans: Seq<PreparedSpan<S>>) -> Seq<(S, TextMetrics)> {
    spans.map_values(|s: PreparedSpan<S>| span_content(s))
}

/// The spans of all `lines`, in order.
pub open spec fn lines_spans<S>(lines: Seq<LineModel<S>>) -> Seq<PreparedSpan<S>>
    decreases lines.len(),
{
    if lines.len() == 0 {
        Seq::empty()
    } else {
        lines_spans(lines.drop_last()) + lines.last().spans
    }
}

pub open spec fn has_forced_break<S>(groups: Seq<GroupModel<S>>) -> bool {
    exists|i: int| 0 <= i < groups.len() && #[trigger] groups[i] is EndOfLine
}

pub open spec fn has_whitespace<S>(groups: Seq<GroupModel<S>>) -> bool {
    exists|i: int| 0 <= i < groups.len() && #[trigger] groups[i] is Whitespace
}

// ---------------------------------------------------------------------------
// Placement and metrics of one line.
// ---------------------------------------------------------------------------

proof fn lemma_width_same_metrics<S>(a: Seq<PreparedSpan<S>>, b: Seq<PreparedSpan<S>>)
    requires
        a.len() == b.len(),
        forall|i: int| 0 <= i < a.len() ==> a[i].metrics == b[i].metrics,
    ensures
        spans_width(a) == spans_width(b),
    decreases a.len(),
{
    if a.len() > 0 {
        lemma_width_same_metrics(a.drop_last(), b.drop_last());
    }
}

proof fn lemma_placed_index<S>(s: Seq<PreparedSpan<S>>)
    ensures
        placed(s).len() == s.len(),
        forall|i: int|
            0 <= i < s.len() ==> #[trigger] placed(s)[i] == (PreparedSpan {
                source: s[i].source,
                metrics: s[i].metrics,
                location: spans_width(s.take(i)) as i64,
            }),
    decreases s.len(),
{
    if s.len() > 0 {
        let d = s.drop_last();
        lemma_placed_index(d);
        assert forall|i: int| 0 <= i < s.len() implies #[trigger] placed(s)[i] == (PreparedSpan {
            source: s[i].source,
            metrics: s[i].metrics,
            location: spans_width(s.take(i)) as i64,
        }) by {
            if i < s.len() - 1 {
                assert(d.take(i) =~= s.take(i));
            } else {
                assert(s.take(i) =~= d);
            }
        }
    }
}

proof fn lemma_placed_line<S>(s: Seq<PreparedSpan<S>>, metrics: TextMetrics)
    ensures
        line_is_placed(LineModel { spans: placed(s), metrics, alignment_offset: 0 }),
        contents(placed(s)) == contents(s),
{
    lemma_placed_index(s);
    let p = placed(s);
    assert forall|i: int| 0 <= i < p.len() implies #[trigger] p[i].location == spans_width(
        p.take(i),
    ) as i64 by {
        lemma_width_same_metrics(p.take(i), s.take(i));
    }
    assert(contents(p) =~= contents(s));
}

proof fn lemma_merge_covers(cur: Option<TextMetrics>, new: TextMetrics)
    ensures
        merge_metrics(cur, new) is Some,
        covers(merge_metrics(cur, new).unwrap(), new),
        forall|m: TextMetrics|
            (cur matches Some(c) && covers(c, m)) ==> covers(merge_metrics(cur, new).unwrap(), m),
{
}

proof fn lemma_line_metrics_cover<S>(init: Option<TextMetrics>, s: Seq<PreparedSpan<S>>)
    ensures
        s.len() > 0 ==> line_metrics(init, s) is Some,
        line_metrics(init, s) matches Some(mt) ==> forall|i: int|
            0 <= i < s.len() ==> covers(mt, #[trigger] s[i].metrics),
    decreases s.len(),
{
    if s.len() > 0 {
        let d = s.drop_last();
        lemma_line_metrics_cover(init, d);
        lemma_merge_covers(line_metrics(init, d), s.last().metrics);
        let mt = line_metrics(init, s).unwrap();
        assert forall|i: int| 0 <= i < s.len() implies covers(mt, #[trigger] s[i].metrics) by {
            if i < s.len() - 1 {
                assert(s[i] == d[i]);
            }
        }
    }
}

proof fn lemma_new_line_well_formed<S>(m: WrapModel<S>)
    requires
        lines_well_formed(m.lines),
    ensures
        lines_well_formed(model_new_line(m).lines),
{
    let spans = flatten(trim_trailing_whitespace(m.groups));
    lemma_line_metrics_cover(m.vmetrics, spans);
    match line_metrics(m.vmetrics, spans) {
        Some(mt) => {
            lemma_placed_line(spans, mt);
            lemma_placed_index(spans);
            let line = LineModel { spans: placed(spans), metrics: mt, alignment_offset: 0 };
            assert(line_covers_spans(line));
            let lines = model_new_line(m).lines;
            assert(lines == m.lines.push(line));
            assert forall|i: int| 0 <= i < lines.len() implies line_is_placed(#[trigger] lines[i])
                && line_covers_spans(lines[i]) by {
                if i < m.lines.len() {
                    assert(lines[i] == m.lines[i]);
                }
            }
        },
        None => {},
    }
}

proof fn lemma_run_well_formed<S>(m: WrapModel<S>, gs: Seq<GroupModel<S>>, single_line: bool)
    requires
        lines_well_formed(m.lines),
    ensures
        lines_well_formed(model_run(m, gs, single_line).lines),
    decreases gs.len(),
{
    if gs.len() > 0 {
        let (next, new_line) = model_push_group(m, gs[0], single_line);
        match gs[0] {
            GroupModel::EndOfLine(metrics) => {
                lemma_new_line_well_formed(
                    WrapModel {
                        width: m.width,
                        vmetrics: merge_metrics(m.vmetrics, metrics),
                        offset: m.offset,
                        groups: m.groups,
                        lines: m.lines,
                    },
                );
            },
            _ => {
                lemma_new_line_well_formed(m);
            },
        }
        assert(lines_well_formed(next.lines));
        if !(new_line && single_line) {
            lemma_run_well_formed(next, gs.drop_first(), single_line);
        }
    }
}

/// Every line of wrapped text has its spans placed one after another from
/// location zero, and line metrics as tall, deep and widely spaced as each of
/// its spans.
pub proof fn law_wrapped_lines_well_formed<S>(measured: MeasuredTextInfo<S>, options: TextWrap)
    ensures
        lines_well_formed(wrapped_lines(measured, options)),
{
    match measured {
        MeasuredTextInfo::Groups(groups) => {
            let m = model_run(
                initial_model::<S>(options.spec_width()),
                groups_model(groups@),
                !(options is MultiLine),
            );
            lemma_run_well_formed(
                initial_model::<S>(options.spec_width()),
                groups_model(groups@),
                !(options is MultiLine),
            );
            lemma_new_line_well_formed(m);
        },
        MeasuredTextInfo::NoText(_) => {},
    }
}

// ---------------------------------------------------------------------------
// Single-line wrapping.
// ---------------------------------------------------------------------------

proof fn lemma_single_line_run<S>(m: WrapModel<S>, gs: Seq<GroupModel<S>>)
    requires
        m.lines.len() == 0,
    ensures
        model_run(m, gs, true).lines.len() <= 1,
        model_run(m, gs, true).lines.len() == 1 ==> model_run(m, gs, true).groups.len() == 0,
    decreases gs.len(),
{
    if gs.len() > 0 {
        let (next, new_line) = model_push_group(m, gs[0], true);
        if !new_line {
            lemma_single_line_run(next, gs.drop_first());
        }
    }
}

/// Without multi-line wrapping, text takes at most one line.
pub proof fn law_single_line_wrap_is_one_line<S>(measured: MeasuredTextInfo<S>, options: TextWrap)
    requires
        !(options is MultiLine),
    ensures
        wrapped_lines(measured, options).len() <= 1,
{
    match measured {
        MeasuredTextInfo::Groups(groups) => {
            lemma_single_line_run(initial_model::<S>(options.spec_width()), groups_model(groups@));
        },
        MeasuredTextInfo::NoText(_) => {},
    }
}

// ---------------------------------------------------------------------------
// No wrapping width.
// ---------------------------------------------------------------------------

proof fn lemma_unwrapped_run<S>(m: WrapModel<S>, gs: Seq<GroupModel<S>>, single_line: bool)
    requires
        m.width is None,
        !has_forced_break(gs),
    ensures
        model_run(m, gs, single_line).groups == m.groups + gs,
        model_run(m, gs, single_line).lines == m.lines,
        model_run(m, gs, single_line).vmetrics == m.vmetrics,
        model_run(m, gs, single_line).width == m.width,
    decreases gs.len(),
{
    if gs.len() == 0 {
        assert(m.groups + gs =~= m.groups);
    } else {
        assert(!(gs[0] is EndOfLine));
        let (next, new_line) = model_push_group(m, gs[0], single_line);
        assert(!new_line);
        assert forall|i: int| 0 <= i < gs.drop_first().len() implies !(#[trigger] gs.drop_first()[i] is EndOfLine) by {
            assert(gs.drop_first()[i] == gs[i + 1]);
        }
        lemma_unwrapped_run(next, gs.drop_first(), single_line);
        assert(m.groups.push(gs[0]) + gs.drop_first() =~= m.groups + gs);
    }
}

/// Without a wrapping width and without forced line breaks, all of the text
/// lies on one line with its trailing whitespace dropped (no line at all when
/// nothing is left to measure).
pub proof fn law_unwrapped_text_is_one_line<S>(groups: Seq<GroupModel<S>>)
    requires
        !has_forced_break(groups),
    ensures
        wrapped_groups(groups, TextWrap::NoWrap) == (match line_metrics(
            None,
            flatten(trim_trailing_whitespace(groups)),
        ) {
            Some(mt) => seq![
                LineModel {
                    spans: placed(flatten(trim_trailing_whitespace(groups))),
                    metrics: mt,
                    alignment_offset: 0,
                },
            ],
            None => Seq::empty(),
        }),
{
    let init = initial_model::<S>(None);
    lemma_unwrapped_run(init, groups, true);
    assert(init.groups + groups =~= groups);
    let spans = flatten(trim_trailing_whitespace(groups));
    match line_metrics(None, spans) {
        Some(mt) => {
            assert(Seq::<LineModel<S>>::empty().push(
                LineModel { spans: placed(spans), metrics: mt, alignment_offset: 0 },
            ) =~= seq![LineModel { spans: placed(spans), metrics: mt, alignment_offset: 0 }]);
        },
        None => {},
    }
}

// ---------------------------------------------------------------------------
// Nothing is lost.
// ---------------------------------------------------------------------------

proof fn lemma_contents_concat<S>(a: Seq<PreparedSpan<S>>, b: Seq<PreparedSpan<S>>)
    ensures
        contents(a + b) == contents(a) + contents(b),
{
    assert(contents(a + b) =~= contents(a) + contents(b));
}

// ---------------------------------------------------------------------------
// Lines stay within the width.
// ---------------------------------------------------------------------------

/// No span of `g` has a negative width.
pub open spec fn group_nonneg<S>(g: GroupModel<S>) -> bool {
    forall|i: int| 0 <= i < group_spans(g).len() ==> #[trigger] group_spans(g)[i].metrics.width >= 0
}

/// `g` is at most `limit` wide.
pub open spec fn group_fits<S>(g: GroupModel<S>, limit: int) -> bool {
    spans_width(group_spans(g)) <= limit
}

proof fn lemma_nonneg_width<S>(s: Seq<PreparedSpan<S>>)
    requires
        forall|i: int| 0 <= i < s.len() ==> #[trigger] s[i].metrics.width >= 0,
    ensures
        spans_width(s) >= 0,
    decreases s.len(),
{
    if s.len() > 0 {
        assert forall|i: int| 0 <= i < s.drop_last().len() implies #[trigger] s.drop_last()[i].metrics.width >= 0 by {
            assert(s.drop_last()[i] == s[i]);
        }
        lemma_nonneg_width(s.drop_last());
    }
}

proof fn lemma_trim_width<S>(gs: Seq<GroupModel<S>>)
    requires
        forall|k: int| 0 <= k < gs.len() ==> group_nonneg(#[trigger] gs[k]),
    ensures
        spans_width(flatten(trim_trailing_whitespace(gs))) <= spans_width(flatten(gs)),
    decreases gs.len(),
{
    if gs.len() > 0 && gs.last() is Whitespace {
        let d = gs.drop_last();
        assert forall|k: int| 0 <= k < d.len() implies group_nonneg(#[trigger] d[k]) by {
            assert(d[k] == gs[k]);
        }
        lemma_trim_width(d);
        lemma_spans_width_concat(flatten(d), group_spans(gs.last()));
        assert(group_nonneg(gs[gs.len() - 1]));
        lemma_nonneg_width(group_spans(gs.last()));
    }
}

/// Every line is at most `limit` wide.
pub open spec fn lines_within<S>(lines: Seq<LineModel<S>>, limit: int) -> bool {
    forall|i: int| 0 <= i < lines.len() ==> spans_width(#[trigger] lines[i].spans) <= limit
}

/// The invariant of wrapping to a width: the current line is as wide as its
/// groups, at most `limit`, and holds no negative widths; the lines so far
/// are at most `limit` wide.
spec fn within_state<S>(m: WrapModel<S>, limit: int) -> bool {
    &&& m.offset == spans_width(flatten(m.groups))
    &&& m.offset <= limit
    &&& forall|k: int| 0 <= k < m.groups.len() ==> group_nonneg(#[trigger] m.groups[k])
    &&& lines_within(m.lines, limit)
}

proof fn lemma_new_line_within<S>(m: WrapModel<S>, limit: int)
    requires
        lines_within(m.lines, limit),
        forall|k: int| 0 <= k < m.groups.len() ==> group_nonneg(#[trigger] m.groups[k]),
        spans_width(flatten(m.groups)) <= limit,
    ensures
        lines_within(model_new_line(m).lines, limit),
{
    let spans = flatten(trim_trailing_whitespace(m.groups));
    lemma_trim_width(m.groups);
    match line_metrics(m.vmetrics, spans) {
        Some(mt) => {
            lemma_placed_index(spans);
            lemma_width_same_metrics(placed(spans), spans);
            let line = LineModel { spans: placed(spans), metrics: mt, alignment_offset: 0 };
            let lines = model_new_line(m).lines;
            assert(lines == m.lines.push(line));
            assert forall|i: int| 0 <= i < lines.len() implies spans_width(#[trigger] lines[i].spans) <= limit by {
                if i < m.lines.len() {
                    assert(lines[i] == m.lines[i]);
                }
            }
        },
        None => {},
    }
}

proof fn lemma_run_within<S>(m: WrapModel<S>, gs: Seq<GroupModel<S>>, w: i64)
    requires
        m.width == Some(w),
        within_state(m, w + WRAP_TOLERANCE),
        forall|k: int| 0 <= k < gs.len() ==> group_nonneg(#[trigger] gs[k]),
        forall|k: int| 0 <= k < gs.len() ==> group_fits(#[trigger] gs[k], w + WRAP_TOLERANCE),
    ensures
        within_state(model_run(m, gs, false), w + WRAP_TOLERANCE),
        model_run(m, gs, false).width == Some(w),
    decreases gs.len(),
{
    let limit = w + WRAP_TOLERANCE;
    if gs.len() > 0 {
        let g = gs[0];
        assert(group_nonneg(gs[0]) && group_fits(gs[0], limit));
        let (next, _) = model_push_group(m, g, false);
        match g {
            GroupModel::EndOfLine(metrics) => {
                lemma_new_line_within(
                    WrapModel {
                        width: m.width,
                        vmetrics: merge_metrics(m.vmetrics, metrics),
                        offset: m.offset,
                        groups: m.groups,
                        lines: m.lines,
                    },
                    limit,
                );
                assert(flatten(next.groups) =~= Seq::<PreparedSpan<S>>::empty());
            },
            _ => {
                let total = spans_width(group_spans(g));
                if breaks_line(m.width, m.offset, total) {
                    lemma_new_line_within(m, limit);
                    lemma_flatten_single(g);
                    assert(next.groups == seq![g]);
                } else {
                    assert(next.groups == m.groups.push(g));
                    assert(m.groups.push(g).drop_last() =~= m.groups);
                    lemma_spans_width_concat(flatten(m.groups), group_spans(g));
                    assert forall|k: int| 0 <= k < next.groups.len() implies group_nonneg(#[trigger] next.groups[k]) by {
                        if k < m.groups.len() {
                            assert(next.groups[k] == m.groups[k]);
                        }
                    }
                }
            },
        }
        assert(within_state(next, limit));
        let rest = gs.drop_first();
        assert forall|k: int| 0 <= k < rest.len() implies group_nonneg(#[trigger] rest[k]) && group_fits(rest[k], limit) by {
            assert(rest[k] == gs[k + 1]);
        }
        lemma_run_within(next, rest, w);
    }
}

/// Multi-line wrapping keeps every line within the width (and its tolerance)
/// whenever no span is negatively wide and every group fits the width on its
/// own: a line only runs over for a word wider than the line.
pub proof fn law_multi_line_wrap_stays_within_width<S>(
    groups: Seq<GroupModel<S>>,
    size: crate::geometry::Size,
    alignment: Alignment,
)
    requires
        forall|k: int| 0 <= k < groups.len() ==> group_nonneg(#[trigger] groups[k]),
        forall|k: int| 0 <= k < groups.len() ==> group_fits(#[trigger] groups[k], size.width + WRAP_TOLERANCE),
    ensures
        lines_within(
            wrapped_groups(groups, TextWrap::MultiLine { size, alignment }),
            size.width + WRAP_TOLERANCE,
        ),
{
    let limit = size.width + WRAP_TOLERANCE;
    let init = initial_model::<S>(Some(size.width));
    assert(flatten(init.groups) =~= Seq::<PreparedSpan<S>>::empty());
    if limit < 0 && groups.len() > 0 {
        // No group fits a negative width.
        assert(group_nonneg(groups[0]) && group_fits(groups[0], limit));
        lemma_nonneg_width(group_spans(groups[0]));
        assert(false);
    }
    if groups.len() == 0 {
        assert(model_run(init, groups, false) == init);
        assert(flatten(trim_trailing_whitespace(init.groups)) =~= Seq::<PreparedSpan<S>>::empty());
    } else {
        assert(within_state(init, limit));
        lemma_run_within(init, groups, size.width);
        let m = model_run(init, groups, false);
        lemma_new_line_within(m, limit);
    }
}

// ---------------------------------------------------------------------------
// Alignment.
// ---------------------------------------------------------------------------

/// Aligning moves lines and changes nothing else: a right-aligned line ends at
/// the width, a left-aligned one starts at zero, and a centered line that fits
/// has as much room on its left as on its right, or one unit less. Without an
/// alignment or a width, lines are not moved.
pub proof fn law_lines_are_aligned<S>(measured: MeasuredTextInfo<S>, options: TextWrap)
    requires
        wrap_fits(measured, options),
    ensures
        ({
            let lines = wrapped_lines(measured, options);
            let unaligned = unaligned_lines(measured, options);
            &&& lines.len() == unaligned.len()
            &&& forall|i: int| 0 <= i < lines.len() ==> {
                let l = #[trigger] lines[i];
                let lw = line_width(l);
                &&& l.spans == unaligned[i].spans
                &&& l.metrics == unaligned[i].metrics
                &&& (options.spec_alignment() is None || options.spec_width() is None)
                    ==> l.alignment_offset == 0
                &&& options.spec_alignment() == Some(Alignment::Left) ==> l.alignment_offset == 0
                &&& (options.spec_alignment() == Some(Alignment::Right) && options.spec_width() is Some)
                    ==> l.alignment_offset + lw == options.spec_width().unwrap()
                &&& (options.spec_alignment() == Some(Alignment::Center) && options.spec_width() is Some
                    && lw <= options.spec_width().unwrap()) ==> {
                    let w = options.spec_width().unwrap();
                    &&& 0 <= l.alignment_offset
                    &&& l.alignment_offset <= w - lw - l.alignment_offset <= l.alignment_offset + 1
                }
            }
        }),
{
    let lines = wrapped_lines(measured, options);
    let unaligned = unaligned_lines(measured, options);
    lemma_unaligned_bounded(measured, options);
    lemma_unaligned_offsets_zero(measured, options);
    assert forall|i: int| 0 <= i < lines.len() implies {
        let l = #[trigger] lines[i];
        let lw = line_width(l);
        &&& l.spans == unaligned[i].spans
        &&& l.metrics == unaligned[i].metrics
        &&& (options.spec_alignment() is None || options.spec_width() is None)
            ==> l.alignment_offset == 0
        &&& options.spec_alignment() == Some(Alignment::Left) ==> l.alignment_offset == 0
        &&& (options.spec_alignment() == Some(Alignment::Right) && options.spec_width() is Some)
            ==> l.alignment_offset + lw == options.spec_width().unwrap()
        &&& (options.spec_alignment() == Some(Alignment::Center) && options.spec_width() is Some
            && lw <= options.spec_width().unwrap()) ==> {
            let w = options.spec_width().unwrap();
            &&& 0 <= l.alignment_offset
            &&& l.alignment_offset <= w - lw - l.alignment_offset <= l.alignment_offset + 1
        }
    } by {
        let u = unaligned[i];
        lemma_spans_abs_bounds(u.spans);
        match measured {
            MeasuredTextInfo::Groups(groups) => {},
            MeasuredTextInfo::NoText(_) => {
                assert(u.spans =~= Seq::<PreparedSpan<S>>::empty());
            },
        }
    }
}

proof fn lemma_unaligned_offsets_zero<S>(measured: MeasuredTextInfo<S>, options: TextWrap)
    ensures
        forall|i: int|
            0 <= i < unaligned_lines(measured, options).len() ==> (#[trigger] unaligned_lines(
                measured,
                options,
            )[i]).alignment_offset == 0,
{
    match measured {
        MeasuredTextInfo::Groups(groups) => {
            let gm = groups_model(groups@);
            let init = initial_model::<S>(options.spec_width());
            lemma_run_offsets_zero(init, gm, !(options is MultiLine));
            lemma_new_line_offsets_zero(model_run(init, gm, !(options is MultiLine)));
        },
        MeasuredTextInfo::NoText(_) => {},
    }
}

spec fn offsets_zero<S>(lines: Seq<LineModel<S>>) -> bool {
    forall|i: int| 0 <= i < lines.len() ==> (#[trigger] lines[i]).alignment_offset == 0
}

proof fn lemma_new_line_offsets_zero<S>(m: WrapModel<S>)
    requires
        offsets_zero(m.lines),
    ensures
        offsets_zero(model_new_line(m).lines),
{
    let lines = model_new_line(m).lines;
    assert forall|i: int| 0 <= i < lines.len() implies (#[trigger] lines[i]).alignment_offset == 0 by {
        if i < m.lines.len() {
            assert(lines[i] == m.lines[i]);
        }
    }
}

proof fn lemma_run_offsets_zero<S>(m: WrapModel<S>, gs: Seq<GroupModel<S>>, single_line: bool)
    requires
        offsets_zero(m.lines),
    ensures
        offsets_zero(model_run(m, gs, single_line).lines),
    decreases gs.len(),
{
    if gs.len() > 0 {
        let (next, new_line) = model_push_group(m, gs[0], single_line);
        match gs[0] {
            GroupModel::EndOfLine(metrics) => {
                lemma_new_line_offsets_zero(
                    WrapModel {
                        width: m.width,
                        vmetrics: merge_metrics(m.vmetrics, metrics),
                        offset: m.offset,
                        groups: m.groups,
                        lines: m.lines,
                    },
                );
            },
            _ => {
                lemma_new_line_offsets_zero(m);
            },
        }
        if !(new_line && single_line) {
            lemma_run_offsets_zero(next, gs.drop_first(), single_line);
        }
    }
}

// ---------------------------------------------------------------------------
// Only whitespace is dropped.
// ---------------------------------------------------------------------------

/// The groups of `gs` whose entry in `mask` is true, in order.
pub open spec fn kept_groups<S>(gs: Seq<GroupModel<S>>, mask: Seq<bool>) -> Seq<GroupModel<S>>
    decreases gs.len(),
{
    if gs.len() == 0 {
        Seq::empty()
    } else {
        kept_groups(gs.drop_last(), mask.take(gs.len() - 1)) + if mask[gs.len() - 1] {
            seq![gs.last()]
        } else {
            Seq::empty()
        }
    }
}

/// `mask` drops only whitespace groups of `gs`.
pub open spec fn drops_only_whitespace<S>(gs: Seq<GroupModel<S>>, mask: Seq<bool>) -> bool {
    &&& mask.len() == gs.len()
    &&& forall|i: int| 0 <= i < gs.len() && !mask[i] ==> #[trigger] gs[i] is Whitespace
}

proof fn lemma_kept_concat<S>(a: Seq<GroupModel<S>>, ma: Seq<bool>, b: Seq<GroupModel<S>>, mb: Seq<bool>)
    requires
        ma.len() == a.len(),
        mb.len() == b.len(),
    ensures
        kept_groups(a + b, ma + mb) == kept_groups(a, ma) + kept_groups(b, mb),
    decreases b.len(),
{
    if b.len() == 0 {
        assert(a + b =~= a);
        assert((ma + mb).take(a.len() as int) =~= ma);
        assert(ma + mb =~= ma);
        assert(kept_groups(a, ma) + kept_groups(b, mb) =~= kept_groups(a, ma));
    } else {
        let n = (a + b).len();
        assert((a + b).drop_last() =~= a + b.drop_last());
        assert((ma + mb).take(n - 1) =~= ma + mb.take(b.len() - 1));
        lemma_kept_concat(a, ma, b.drop_last(), mb.take(b.len() - 1));
        assert((ma + mb)[n - 1] == mb[b.len() - 1]);
        assert(kept_groups(a + b, ma + mb) =~= kept_groups(a, ma) + kept_groups(b, mb));
    }
}

proof fn lemma_kept_all<S>(gs: Seq<GroupModel<S>>, keep: bool)
    ensures
        kept_groups(gs, Seq::new(gs.len(), |i: int| keep)) == if keep {
            gs
        } else {
            Seq::<GroupModel<S>>::empty()
        },
    decreases gs.len(),
{
    if gs.len() > 0 {
        let mask = Seq::new(gs.len(), |i: int| keep);
        assert(mask.take(gs.len() - 1) =~= Seq::new(gs.drop_last().len(), |i: int| keep));
        lemma_kept_all(gs.drop_last(), keep);
        if keep {
            assert(gs.drop_last() + seq![gs.last()] =~= gs);
        } else {
            assert(Seq::<GroupModel<S>>::empty() + Seq::<GroupModel<S>>::empty() =~= Seq::<GroupModel<S>>::empty());
        }
    }
}

proof fn lemma_trim_is_prefix<S>(gs: Seq<GroupModel<S>>)
    ensures
        trim_trailing_whitespace(gs).len() <= gs.len(),
        trim_trailing_whitespace(gs) == gs.take(trim_trailing_whitespace(gs).len() as int),
        forall|i: int|
            trim_trailing_whitespace(gs).len() <= i < gs.len() ==> #[trigger] gs[i] is Whitespace,
    decreases gs.len(),
{
    if gs.len() > 0 && gs.last() is Whitespace {
        let d = gs.drop_last();
        lemma_trim_is_prefix(d);
        let t = trim_trailing_whitespace(d).len() as int;
        assert(d.take(t) =~= gs.take(t));
        assert forall|i: int| t <= i < gs.len() implies #[trigger] gs[i] is Whitespace by {
            if i < gs.len() - 1 {
                assert(gs[i] == d[i]);
            }
        }
    } else {
        assert(gs.take(gs.len() as int) =~= gs);
    }
}

/// The invariant of multi-line wrapping: the groups taken in so far are
/// `taken`; the first `mask.len()` of them are done with, and the lines hold
/// the spans of those that `mask` keeps, dropping only whitespace; the rest
/// are the current line's groups.
spec fn wrap_keeps<S>(m: WrapModel<S>, taken: Seq<GroupModel<S>>, mask: Seq<bool>) -> bool {
    &&& mask.len() <= taken.len()
    &&& drops_only_whitespace(taken.take(mask.len() as int), mask)
    &&& m.groups == taken.skip(mask.len() as int)
    &&& contents(lines_spans(m.lines)) == contents(flatten(kept_groups(taken.take(mask.len() as int), mask)))
}

proof fn lemma_new_line_keeps<S>(m: WrapModel<S>, taken: Seq<GroupModel<S>>, mask: Seq<bool>) -> (mask2: Seq<bool>)
    requires
        wrap_keeps(m, taken, mask),
    ensures
        mask2.len() == taken.len(),
        wrap_keeps(model_new_line(m), taken, mask2),
{
    let j = mask.len() as int;
    let cur = m.groups;
    lemma_trim_is_prefix(cur);
    let trimmed = trim_trailing_whitespace(cur);
    let t = trimmed.len() as int;
    let ones = Seq::new(t as nat, |i: int| true);
    let zeros = Seq::new((cur.len() - t) as nat, |i: int| false);
    let mask2 = mask + (ones + zeros);
    assert(taken =~= taken.take(j) + cur);
    assert(taken.take(mask2.len() as int) =~= taken);
    assert(cur =~= cur.take(t) + cur.skip(t));
    lemma_kept_all(cur.take(t), true);
    lemma_kept_all(cur.skip(t), false);
    lemma_kept_concat(cur.take(t), ones, cur.skip(t), zeros);
    assert(kept_groups(cur, ones + zeros) =~= trimmed);
    lemma_kept_concat(taken.take(j), mask, cur, ones + zeros);
    let spans = flatten(trimmed);
    lemma_flatten_concat(kept_groups(taken.take(j), mask), trimmed);
    let nl = model_new_line(m);
    lemma_line_metrics_cover(m.vmetrics, spans);
    assert(taken.skip(mask2.len() as int) =~= Seq::<GroupModel<S>>::empty());
    assert forall|i: int| 0 <= i < taken.len() && !mask2[i] implies #[trigger] taken[i] is Whitespace by {
        if i < j {
            assert(taken.take(j)[i] == taken[i]);
        } else {
            assert(taken[i] == cur[i - j]);
            assert((ones + zeros)[i - j] == mask2[i]);
        }
    }
    match line_metrics(m.vmetrics, spans) {
        Some(mt) => {
            let line = LineModel { spans: placed(spans), metrics: mt, alignment_offset: 0 };
            assert(nl.lines == m.lines.push(line));
            assert(m.lines.push(line).drop_last() =~= m.lines);
            lemma_placed_line(spans, mt);
            lemma_contents_concat(lines_spans(m.lines), placed(spans));
            lemma_contents_concat(flatten(kept_groups(taken.take(j), mask)), spans);
        },
        None => {
            assert(spans.len() == 0);
            assert(flatten(kept_groups(taken.take(j), mask)) + spans =~= flatten(
                kept_groups(taken.take(j), mask),
            ));
        },
    }
    mask2
}

proof fn lemma_run_keeps<S>(
    m: WrapModel<S>,
    gs: Seq<GroupModel<S>>,
    taken: Seq<GroupModel<S>>,
    mask: Seq<bool>,
) -> (mask2: Seq<bool>)
    requires
        wrap_keeps(m, taken, mask),
    ensures
        wrap_keeps(model_run(m, gs, false), taken + gs, mask2),
    decreases gs.len(),
{
    if gs.len() == 0 {
        assert(taken + gs =~= taken);
        mask
    } else {
        let g = gs[0];
        let rest = gs.drop_first();
        let taken2 = taken.push(g);
        assert(taken2 + rest =~= taken + gs);
        let (next, _) = model_push_group(m, g, false);
        let j = mask.len() as int;
        assert(taken2.take(j) =~= taken.take(j));
        let mask_next = match g {
            GroupModel::EndOfLine(metrics) => {
                let merged = WrapModel {
                    width: m.width,
                    vmetrics: merge_metrics(m.vmetrics, metrics),
                    offset: m.offset,
                    groups: m.groups,
                    lines: m.lines,
                };
                let mask1 = lemma_new_line_keeps(merged, taken, mask);
                let mask2 = mask1.push(true);
                assert(taken2.take(taken.len() as int) =~= taken);
                assert(taken2.take(mask2.len() as int) =~= taken2);
                assert(taken.take(mask1.len() as int) =~= taken);
                assert(taken2.skip(mask2.len() as int) =~= Seq::<GroupModel<S>>::empty());
                assert(mask2.take(taken.len() as int) =~= mask1);
                assert(taken2.drop_last() =~= taken);
                assert(kept_groups(taken2, mask2) == kept_groups(taken, mask1) + seq![g]);
                lemma_flatten_concat(kept_groups(taken, mask1), seq![g]);
                lemma_flatten_single(g);
                assert(flatten(kept_groups(taken, mask1)) + group_spans(g) =~= flatten(
                    kept_groups(taken, mask1),
                ));
                assert forall|i: int| 0 <= i < taken2.len() && !mask2[i] implies #[trigger] taken2[i] is Whitespace by {
                    assert(taken2[i] == taken[i]);
                }
                mask2
            },
            _ => {
                let total = spans_width(group_spans(g));
                if breaks_line(m.width, m.offset, total) {
                    let mask1 = lemma_new_line_keeps(m, taken, mask);
                    assert(taken.take(mask1.len() as int) =~= taken);
                    assert(taken2.take(mask1.len() as int) =~= taken);
                    assert(taken2.skip(mask1.len() as int) =~= seq![g]);
                    mask1
                } else {
                    assert(taken2.skip(j) =~= m.groups.push(g));
                    mask
                }
            },
        };
        lemma_run_keeps(next, rest, taken2, mask_next)
    }
}

/// Multi-line wrapping drops nothing but whitespace: the lines hold, in
/// order, the spans of all the groups except some whitespace groups (those
/// that ended a line).
pub proof fn law_multi_line_wrap_drops_only_whitespace<S>(
    groups: Seq<GroupModel<S>>,
    size: crate::geometry::Size,
    alignment: Alignment,
)
    ensures
        exists|mask: Seq<bool>|
            drops_only_whitespace(groups, mask) && contents(
                lines_spans(wrapped_groups(groups, TextWrap::MultiLine { size, alignment })),
            ) == contents(flatten(#[trigger] kept_groups(groups, mask))),
{
    let init = initial_model::<S>(Some(size.width));
    let empty_groups = Seq::<GroupModel<S>>::empty();
    let empty_mask = Seq::<bool>::empty();
    assert(kept_groups(empty_groups, empty_mask) =~= empty_groups);
    assert(flatten(empty_groups) =~= Seq::<PreparedSpan<S>>::empty());
    assert(lines_spans(init.lines) =~= Seq::<PreparedSpan<S>>::empty());
    assert(empty_groups.take(0) =~= empty_groups);
    assert(empty_groups.skip(0) =~= empty_groups);
    assert(wrap_keeps(init, empty_groups, empty_mask));
    let mask1 = lemma_run_keeps(init, groups, empty_groups, empty_mask);
    assert(empty_groups + groups =~= groups);
    let m = model_run(init, groups, false);
    if m.groups.len() > 0 || m.lines.len() == 0 {
        let mask2 = lemma_new_line_keeps(m, groups, mask1);
        assert(groups.take(mask2.len() as int) =~= groups);
        assert(drops_only_whitespace(groups, mask2));
    } else {
        assert(groups.skip(mask1.len() as int).len() == 0);
        assert(mask1.len() == groups.len());
        assert(groups.take(mask1.len() as int) =~= groups);
        assert(drops_only_whitespace(groups, mask1));
    }
}

/// Multi-line wrapping of text without whitespace groups loses nothing: the
/// lines hold every span of the text, in order.
pub proof fn law_multi_line_wrap_keeps_every_span<S>(
    groups: Seq<GroupModel<S>>,
    size: crate::geometry::Size,
    alignment: Alignment,
)
    requires
        !has_whitespace(groups),
    ensures
        contents(lines_spans(wrapped_groups(groups, TextWrap::MultiLine { size, alignment })))
            == contents(flatten(groups)),
{
    law_multi_line_wrap_drops_only_whitespace(groups, size, alignment);
    let mask = choose|mask: Seq<bool>|
        drops_only_whitespace(groups, mask) && contents(
            lines_spans(wrapped_groups(groups, TextWrap::MultiLine { size, alignment })),
        ) == contents(flatten(#[trigger] kept_groups(groups, mask)));
    assert forall|i: int| 0 <= i < mask.len() implies mask[i] by {
        if !mask[i] {
            assert(groups[i] is Whitespace);
        }
    }
    assert(mask =~= Seq::new(groups.len(), |i: int| true));
    lemma_kept_all(groups, true);
}

// ---------------------------------------------------------------------------
// Greedy breaking of words.
// ---------------------------------------------------------------------------

/// `g` is a word: a group of one span of positive width.
pub open spec fn is_word<S>(g: GroupModel<S>) -> bool {
    &&& g is Spans
    &&& group_spans(g).len() == 1
    &&& group_spans(g)[0].metrics.width > 0
}

/// Every group of `gs` is a word.
pub open spec fn all_words<S>(gs: Seq<GroupModel<S>>) -> bool {
    forall|k: int| 0 <= k < gs.len() ==> is_word(#[trigger] gs[k])
}

/// Lines broken greedily within `limit`: no line is empty; a line runs over
/// `limit` only when it is one word; and each line would run over `limit`
/// with the first word of the next line added to it.
pub open spec fn greedy_lines<S>(lines: Seq<LineModel<S>>, limit: int) -> bool {
    &&& forall|i: int|
        0 <= i < lines.len() ==> (#[trigger] lines[i]).spans.len() > 0 && (line_width(lines[i]) <= limit
            || lines[i].spans.len() == 1)
    &&& forall|i: int|
        0 <= i < lines.len() - 1 ==> #[trigger] line_width(lines[i]) + lines[i + 1].spans[0].metrics.width
            > limit
}

proof fn lemma_word_width<S>(g: GroupModel<S>)
    requires
        is_word(g),
    ensures
        spans_width(group_spans(g)) == group_spans(g)[0].metrics.width,
{
    let s = group_spans(g);
    assert(s.drop_last() =~= Seq::<PreparedSpan<S>>::empty());
    assert(spans_width(Seq::<PreparedSpan<S>>::empty()) == 0);
    assert(s.last() == s[0]);
}

proof fn lemma_flatten_words<S>(gs: Seq<GroupModel<S>>)
    requires
        all_words(gs),
    ensures
        flatten(gs).len() == gs.len(),
        forall|i: int| 0 <= i < gs.len() ==> #[trigger] flatten(gs)[i] == group_spans(gs[i])[0],
        gs.len() > 0 ==> spans_width(flatten(gs)) > 0,
        gs.len() == 0 ==> spans_width(flatten(gs)) == 0,
    decreases gs.len(),
{
    if gs.len() > 0 {
        let d = gs.drop_last();
        assert forall|k: int| 0 <= k < d.len() implies is_word(#[trigger] d[k]) by {
            assert(d[k] == gs[k]);
        }
        lemma_flatten_words(d);
        assert(is_word(gs[gs.len() - 1]));
        lemma_word_width(gs.last());
        lemma_spans_width_concat(flatten(d), group_spans(gs.last()));
        assert forall|i: int| 0 <= i < gs.len() implies #[trigger] flatten(gs)[i] == group_spans(gs[i])[0] by {
            if i < gs.len() - 1 {
                assert(gs[i] == d[i]);
            }
        }
    } else {
        assert(flatten(gs) =~= Seq::<PreparedSpan<S>>::empty());
    }
}

proof fn lemma_all_words_push<S>(gs: Seq<GroupModel<S>>, g: GroupModel<S>)
    requires
        all_words(gs),
        is_word(g),
    ensures
        all_words(gs.push(g)),
        flatten(gs.push(g)) == flatten(gs) + group_spans(g),
{
    assert forall|k: int| 0 <= k < gs.push(g).len() implies is_word(#[trigger] gs.push(g)[k]) by {
        if k < gs.len() {
            assert(gs.push(g)[k] == gs[k]);
        }
    }
    assert(gs.push(g).drop_last() =~= gs);
}

/// The line that ends a run of words: all of them, placed.
proof fn lemma_words_line<S>(m: WrapModel<S>)
    requires
        all_words(m.groups),
        m.groups.len() > 0,
        m.vmetrics is None,
    ensures
        ({
            let spans = flatten(m.groups);
            let nl = model_new_line(m);
            let line = nl.lines.last();
            &&& nl.lines.len() == m.lines.len() + 1
            &&& nl.lines.drop_last() == m.lines
            &&& line.spans.len() == m.groups.len()
            &&& line_width(line) == spans_width(spans)
            &&& line.spans[0].metrics == group_spans(m.groups[0])[0].metrics
            &&& contents(line.spans) == contents(spans)
        }),
{
    let gs = m.groups;
    assert(!(gs.last() is Whitespace)) by {
        assert(is_word(gs[gs.len() - 1]));
    }
    assert(trim_trailing_whitespace(gs) == gs);
    let spans = flatten(gs);
    lemma_flatten_words(gs);
    lemma_line_metrics_cover(m.vmetrics, spans);
    let mt = line_metrics(m.vmetrics, spans).unwrap();
    let line = LineModel { spans: placed(spans), metrics: mt, alignment_offset: 0 };
    assert(model_new_line(m).lines == m.lines.push(line));
    assert(m.lines.push(line).drop_last() =~= m.lines);
    lemma_placed_index(spans);
    lemma_width_same_metrics(placed(spans), spans);
    lemma_placed_line(spans, mt);
}

/// The invariant of greedy multi-line wrapping of words.
spec fn greedy_state<S>(m: WrapModel<S>, limit: int) -> bool {
    &&& m.vmetrics is None
    &&& all_words(m.groups)
    &&& m.offset == spans_width(flatten(m.groups))
    &&& (m.offset <= limit || m.groups.len() <= 1)
    &&& m.lines.len() > 0 ==> m.groups.len() > 0
    &&& greedy_lines(m.lines, limit)
    &&& m.lines.len() > 0 ==> line_width(m.lines.last()) + group_spans(m.groups[0])[0].metrics.width > limit
}

proof fn lemma_greedy_new_line<S>(m: WrapModel<S>, limit: int)
    requires
        greedy_state(m, limit),
        m.groups.len() > 0,
    ensures
        greedy_lines(model_new_line(m).lines, limit),
        line_width(model_new_line(m).lines.last()) == m.offset,
        model_new_line(m).lines.len() == m.lines.len() + 1,
{
    lemma_words_line(m);
    let lines = model_new_line(m).lines;
    let n = m.lines.len();
    assert forall|i: int| 0 <= i < lines.len() implies (#[trigger] lines[i]).spans.len() > 0 && (line_width(
        lines[i],
    ) <= limit || lines[i].spans.len() == 1) by {
        if i < n {
            assert(lines[i] == m.lines[i]);
        }
    }
    assert forall|i: int| 0 <= i < lines.len() - 1 implies #[trigger] line_width(lines[i])
        + lines[i + 1].spans[0].metrics.width > limit by {
        assert(lines[i] == m.lines[i]);
        if i < n - 1 {
            assert(lines[i + 1] == m.lines[i + 1]);
        }
    }
}

proof fn lemma_greedy_run<S>(m: WrapModel<S>, gs: Seq<GroupModel<S>>, w: i64)
    requires
        m.width == Some(w),
        greedy_state(m, w + WRAP_TOLERANCE),
        all_words(gs),
    ensures
        greedy_state(model_run(m, gs, false), w + WRAP_TOLERANCE),
    decreases gs.len(),
{
    let limit = w + WRAP_TOLERANCE;
    if gs.len() > 0 {
        let g = gs[0];
        assert(is_word(gs[0]));
        lemma_word_width(g);
        lemma_flatten_words(m.groups);
        let x = group_spans(g)[0].metrics.width;
        let (next, _) = model_push_group(m, g, false);
        if breaks_line(m.width, m.offset, x as int) {
            lemma_greedy_new_line(m, limit);
            lemma_flatten_single(g);
            assert(next.groups == seq![g]);
            assert(all_words(next.groups)) by {
                assert forall|k: int| 0 <= k < next.groups.len() implies is_word(#[trigger] next.groups[k]) by {
                    assert(next.groups[k] == g);
                }
            }
        } else {
            lemma_all_words_push(m.groups, g);
            assert(next.groups == m.groups.push(g));
            lemma_spans_width_concat(flatten(m.groups), group_spans(g));
            if m.groups.len() > 0 {
                assert(next.groups[0] == m.groups[0]);
            }
        }
        assert(greedy_state(next, limit));
        let rest = gs.drop_first();
        assert forall|k: int| 0 <= k < rest.len() implies is_word(#[trigger] rest[k]) by {
            assert(rest[k] == gs[k + 1]);
        }
        lemma_greedy_run(next, rest, w);
    }
}

/// Multi-line wrapping of words breaks greedily: every line holds at least one
/// word, runs past the width (and its tolerance) only when it is a single
/// word, and is followed by a line whose first word would not have fit on it.
pub proof fn law_multi_line_wrap_is_greedy<S>(
    groups: Seq<GroupModel<S>>,
    size: crate::geometry::Size,
    alignment: Alignment,
)
    requires
        all_words(groups),
    ensures
        greedy_lines(
            wrapped_groups(groups, TextWrap::MultiLine { size, alignment }),
            size.width + WRAP_TOLERANCE,
        ),
{
    let limit = size.width + WRAP_TOLERANCE;
    let init = initial_model::<S>(Some(size.width));
    assert(flatten(init.groups) =~= Seq::<PreparedSpan<S>>::empty());
    assert(greedy_state(init, limit));
    lemma_greedy_run(init, groups, size.width);
    let m = model_run(init, groups, false);
    if m.groups.len() > 0 {
        lemma_greedy_new_line(m, limit);
    } else {
        assert(m.lines.len() == 0);
        assert(flatten(trim_trailing_whitespace(m.groups)) =~= Seq::<PreparedSpan<S>>::empty());
        assert(model_new_line(m).lines.len() == 0);
    }
}

// ---------------------------------------------------------------------------
// Single-line wrapping keeps the words that fit.
// ---------------------------------------------------------------------------

/// `k` is how many leading words of `gs` a single line within `limit` keeps:
/// at least one; all of them fit together unless there is just one; and
/// either none is left or the next would run over.
pub open spec fn keeps_fitting_words<S>(gs: Seq<GroupModel<S>>, k: int, limit: int) -> bool {
    &&& 1 <= k <= gs.len()
    &&& (k == 1 || spans_width(flatten(gs.take(k))) <= limit)
    &&& (k == gs.len() || spans_width(flatten(gs.take(k + 1))) > limit)
}

proof fn lemma_single_run<S>(m: WrapModel<S>, taken: Seq<GroupModel<S>>, gs: Seq<GroupModel<S>>, w: i64) -> (k: int)
    requires
        m.width == Some(w),
        m.vmetrics is None,
        m.lines.len() == 0,
        m.groups == taken,
        all_words(taken),
        all_words(gs),
        m.offset == spans_width(flatten(taken)),
        taken.len() <= 1 || m.offset <= w + WRAP_TOLERANCE,
    ensures
        ({
            let r = model_run(m, gs, true);
            let all = taken + gs;
            let limit = w + WRAP_TOLERANCE;
            ||| {
                &&& r.lines.len() == 1
                &&& r.groups.len() == 0
                &&& keeps_fitting_words(all, k, limit)
                &&& contents(r.lines[0].spans) == contents(flatten(all.take(k)))
            }
            ||| {
                &&& r.lines.len() == 0
                &&& r.groups == all
                &&& r.vmetrics is None
                &&& k == all.len()
                &&& (all.len() <= 1 || spans_width(flatten(all)) <= limit)
            }
        }),
    decreases gs.len(),
{
    let limit = w + WRAP_TOLERANCE;
    let all = taken + gs;
    lemma_flatten_words(taken);
    if gs.len() == 0 {
        assert(all =~= taken);
        taken.len() as int
    } else {
        let g = gs[0];
        assert(is_word(gs[0]));
        lemma_word_width(g);
        let x = group_spans(g)[0].metrics.width;
        let (next, _) = model_push_group(m, g, true);
        let taken2 = taken.push(g);
        assert(taken2 + gs.drop_first() =~= all);
        lemma_all_words_push(taken, g);
        lemma_spans_width_concat(flatten(taken), group_spans(g));
        assert(all.take(taken.len() as int) =~= taken);
        assert(all.take(taken.len() as int + 1) =~= taken2);
        if breaks_line(m.width, m.offset, x as int) {
            lemma_words_line(m);
            let k = taken.len() as int;
            assert(keeps_fitting_words(all, k, limit));
            assert(next.lines == model_new_line(m).lines);
            assert(next.lines[0] == next.lines.last());
            k
        } else {
            assert(next.groups == taken2);
            let rest = gs.drop_first();
            assert forall|j: int| 0 <= j < rest.len() implies is_word(#[trigger] rest[j]) by {
                assert(rest[j] == gs[j + 1]);
            }
            lemma_single_run(next, taken2, rest, w)
        }
    }
}

/// Single-line wrapping of words keeps, on its one line, the leading words
/// that fit the width (and its tolerance), and always at least the first:
/// it stops before the first word that would run over.
pub proof fn law_single_line_keeps_fitting_words<S>(
    groups: Seq<GroupModel<S>>,
    width: i64,
    truncate: bool,
    alignment: Alignment,
)
    requires
        all_words(groups),
        groups.len() > 0,
    ensures
        ({
            let lines = wrapped_groups(groups, TextWrap::SingleLine { width, truncate, alignment });
            &&& lines.len() == 1
            &&& exists|k: int|
                keeps_fitting_words(groups, k, width + WRAP_TOLERANCE) && contents(lines[0].spans)
                    == contents(flatten(#[trigger] groups.take(k)))
        }),
{
    let init = initial_model::<S>(Some(width));
    let empty = Seq::<GroupModel<S>>::empty();
    assert(flatten(empty) =~= Seq::<PreparedSpan<S>>::empty());
    assert(all_words(empty));
    let k = lemma_single_run(init, empty, groups, width);
    assert(empty + groups =~= groups);
    let m = model_run(init, groups, true);
    if m.lines.len() == 0 {
        lemma_words_line(m);
        assert(groups.take(k) =~= groups);
        let nl = model_new_line(m);
        assert(nl.lines[0] == nl.lines.last());
    }
}

// ---------------------------------------------------------------------------
// Forced line breaks.
// ---------------------------------------------------------------------------

spec fn with_lines<S>(m: WrapModel<S>, lines: Seq<LineModel<S>>) -> WrapModel<S> {
    WrapModel { width: m.width, vmetrics: m.vmetrics, offset: m.offset, groups: m.groups, lines }
}

proof fn lemma_new_line_prefix<S>(m: WrapModel<S>, pre: Seq<LineModel<S>>)
    ensures
        model_new_line(with_lines(m, pre + m.lines)) == with_lines(
            model_new_line(m),
            pre + model_new_line(m).lines,
        ),
{
    let spans = flatten(trim_trailing_whitespace(m.groups));
    match line_metrics(m.vmetrics, spans) {
        Some(mt) => {
            let line = LineModel { spans: placed(spans), metrics: mt, alignment_offset: 0 };
            assert((pre + m.lines).push(line) =~= pre + m.lines.push(line));
        },
        None => {},
    }
}

proof fn lemma_run_prefix<S>(m: WrapModel<S>, gs: Seq<GroupModel<S>>, pre: Seq<LineModel<S>>, single_line: bool)
    ensures
        model_run(with_lines(m, pre + m.lines), gs, single_line) == with_lines(
            model_run(m, gs, single_line),
            pre + model_run(m, gs, single_line).lines,
        ),
    decreases gs.len(),
{
    if gs.len() > 0 {
        let g = gs[0];
        let mp = with_lines(m, pre + m.lines);
        let (next, nl) = model_push_group(m, g, single_line);
        let (nextp, nlp) = model_push_group(mp, g, single_line);
        match g {
            GroupModel::EndOfLine(metrics) => {
                let merged = WrapModel {
                    width: m.width,
                    vmetrics: merge_metrics(m.vmetrics, metrics),
                    offset: m.offset,
                    groups: m.groups,
                    lines: m.lines,
                };
                lemma_new_line_prefix(merged, pre);
                assert(with_lines(merged, pre + merged.lines) == WrapModel {
                    width: mp.width,
                    vmetrics: merge_metrics(mp.vmetrics, metrics),
                    offset: mp.offset,
                    groups: mp.groups,
                    lines: mp.lines,
                });
            },
            _ => {
                lemma_new_line_prefix(m, pre);
            },
        }
        assert(nextp == with_lines(next, pre + next.lines));
        assert(nlp == nl);
        if !(nl && single_line) {
            lemma_run_prefix(next, gs.drop_first(), pre, single_line);
        }
    }
}

proof fn lemma_run_concat<S>(m: WrapModel<S>, a: Seq<GroupModel<S>>, b: Seq<GroupModel<S>>)
    ensures
        model_run(m, a + b, false) == model_run(model_run(m, a, false), b, false),
    decreases a.len(),
{
    if a.len() == 0 {
        assert(a + b =~= b);
    } else {
        assert((a + b)[0] == a[0]);
        assert((a + b).drop_first() =~= a.drop_first() + b);
        let (next, _) = model_push_group(m, a[0], false);
        lemma_run_concat(next, a.drop_first(), b);
    }
}

proof fn lemma_run_keeps_width_and_no_metrics<S>(m: WrapModel<S>, gs: Seq<GroupModel<S>>)
    requires
        m.vmetrics is None,
    ensures
        model_run(m, gs, false).vmetrics is None,
        model_run(m, gs, false).width == m.width,
    decreases gs.len(),
{
    if gs.len() > 0 {
        let (next, _) = model_push_group(m, gs[0], false);
        lemma_run_keeps_width_and_no_metrics(next, gs.drop_first());
    }
}

proof fn lemma_line_metrics_some<S>(init: TextMetrics, s: Seq<PreparedSpan<S>>)
    ensures
        line_metrics(Some(init), s) is Some,
    decreases s.len(),
{
    if s.len() > 0 {
        lemma_line_metrics_some(init, s.drop_last());
    }
}

/// A forced line break alone makes one line, with no spans and with the
/// break's own metrics.
pub proof fn law_lone_break_is_an_empty_line<S>(metrics: TextMetrics, options: TextWrap)
    ensures
        wrapped_groups(seq![GroupModel::<S>::EndOfLine(metrics)], options) == seq![
            LineModel::<S> { spans: Seq::empty(), metrics, alignment_offset: 0 },
        ],
{
    let init = initial_model::<S>(options.spec_width());
    let gs = seq![GroupModel::<S>::EndOfLine(metrics)];
    let empty_groups = Seq::<GroupModel<S>>::empty();
    let empty_spans = Seq::<PreparedSpan<S>>::empty();
    assert(trim_trailing_whitespace(empty_groups) == empty_groups);
    assert(flatten(empty_groups) =~= empty_spans);
    assert(line_metrics(Some(metrics), empty_spans) == Some(metrics));
    assert(placed(empty_spans) =~= empty_spans);
    let line = LineModel::<S> { spans: empty_spans, metrics, alignment_offset: 0 };
    let (next, _) = model_push_group(init, gs[0], !(options is MultiLine));
    assert(next.lines =~= seq![line]);
    assert(gs.drop_first() =~= empty_groups);
    assert(model_run(next, empty_groups, !(options is MultiLine)) == next);
    assert(model_run(init, gs, !(options is MultiLine)) == next);
}

/// A forced line break ends everything before it: wrapping text with a break
/// in it gives the lines of the text up to and with the break, then exactly
/// the lines of the rest wrapped on its own (so the lines after a break take
/// nothing, not even metrics, from before it).
pub proof fn law_break_separates_paragraphs<S>(
    before: Seq<GroupModel<S>>,
    metrics: TextMetrics,
    after: Seq<GroupModel<S>>,
    size: crate::geometry::Size,
    alignment: Alignment,
)
    ensures
        ({
            let options = TextWrap::MultiLine { size, alignment };
            let brk = seq![GroupModel::<S>::EndOfLine(metrics)];
            wrapped_groups(before + brk + after, options) == wrapped_groups(before + brk, options)
                + wrapped_groups(after, options)
        }),
{
    let options = TextWrap::MultiLine { size, alignment };
    let brk = seq![GroupModel::<S>::EndOfLine(metrics)];
    let init = initial_model::<S>(Some(size.width));
    let empty_lines = Seq::<LineModel<S>>::empty();
    lemma_run_concat(init, before + brk, after);
    lemma_run_concat(init, before, brk);
    let x = model_run(init, before, false);
    lemma_run_keeps_width_and_no_metrics(init, before);
    let (s, _) = model_push_group(x, brk[0], false);
    assert(brk.drop_first() =~= Seq::<GroupModel<S>>::empty());
    assert(model_run(s, Seq::<GroupModel<S>>::empty(), false) == s);
    assert(brk[0] is EndOfLine);
    assert(model_run(x, brk, false) == model_run(s, brk.drop_first(), false));
    assert(model_run(x, brk, false) == s);
    // The break ends a line: its metrics are never missing.
    let merged = WrapModel {
        width: x.width,
        vmetrics: merge_metrics(x.vmetrics, metrics),
        offset: x.offset,
        groups: x.groups,
        lines: x.lines,
    };
    lemma_line_metrics_some(metrics, flatten(trim_trailing_whitespace(x.groups)));
    assert(s.lines.len() == x.lines.len() + 1);
    assert(s.groups.len() == 0);
    assert(model_finish(s) == s.lines);
    // After the break, wrapping goes on as from the start, with the lines so
    // far in front.
    assert(init.lines =~= empty_lines);
    assert(s == with_lines(init, s.lines + init.lines));
    lemma_run_prefix(init, after, s.lines, false);
    let t = model_run(init, after, false);
    lemma_run_keeps_width_and_no_metrics(init, after);
    let r = model_run(s, after, false);
    assert(r == with_lines(t, s.lines + t.lines));
    if t.groups.len() > 0 {
        lemma_new_line_prefix(t, s.lines);
    } else if t.lines.len() == 0 {
        assert(flatten(trim_trailing_whitespace(t.groups)) =~= Seq::<PreparedSpan<S>>::empty());
        assert(model_new_line(t).lines == t.lines);
        assert(s.lines + t.lines =~= s.lines);
    }
}

// ---------------------------------------------------------------------------
// Lines take their metrics from their own spans.
// ---------------------------------------------------------------------------

/// `line` has spans, and each of its metrics is that of one of its spans.
pub open spec fn metrics_from_spans<S>(line: LineModel<S>) -> bool {
    &&& line.spans.len() > 0
    &&& exists|i: int| 0 <= i < line.spans.len() && #[trigger] line.spans[i].metrics.ascent == line.metrics.ascent
    &&& exists|i: int| 0 <= i < line.spans.len() && #[trigger] line.spans[i].metrics.descent == line.metrics.descent
    &&& exists|i: int| 0 <= i < line.spans.len() && #[trigger] line.spans[i].metrics.line_gap == line.metrics.line_gap
}

proof fn lemma_line_metrics_attained<S>(s: Seq<PreparedSpan<S>>)
    ensures
        (line_metrics(None, s) is Some) == (s.len() > 0),
        s.len() > 0 ==> ({
            let mt = line_metrics(None, s).unwrap();
            &&& exists|i: int| 0 <= i < s.len() && #[trigger] s[i].metrics.ascent == mt.ascent
            &&& exists|i: int| 0 <= i < s.len() && #[trigger] s[i].metrics.descent == mt.descent
            &&& exists|i: int| 0 <= i < s.len() && #[trigger] s[i].metrics.line_gap == mt.line_gap
        }),
    decreases s.len(),
{
    if s.len() > 0 {
        let d = s.drop_last();
        let n = s.len() - 1;
        lemma_line_metrics_attained(d);
        let mt = line_metrics(None, s).unwrap();
        let x = s[n].metrics;
        assert(s.last() == s[n]);
        if d.len() == 0 {
            assert(mt == x);
        } else {
            let md = line_metrics(None, d).unwrap();
            let ia = choose|i: int| 0 <= i < d.len() && #[trigger] d[i].metrics.ascent == md.ascent;
            let id = choose|i: int| 0 <= i < d.len() && #[trigger] d[i].metrics.descent == md.descent;
            let ig = choose|i: int| 0 <= i < d.len() && #[trigger] d[i].metrics.line_gap == md.line_gap;
            assert(d[ia] == s[ia] && d[id] == s[id] && d[ig] == s[ig]);
            if md.ascent >= x.ascent {
                assert(s[ia].metrics.ascent == mt.ascent);
            } else {
                assert(s[n].metrics.ascent == mt.ascent);
            }
            if md.descent <= x.descent {
                assert(s[id].metrics.descent == mt.descent);
            } else {
                assert(s[n].metrics.descent == mt.descent);
            }
            if md.line_gap >= x.line_gap {
                assert(s[ig].metrics.line_gap == mt.line_gap);
            } else {
                assert(s[n].metrics.line_gap == mt.line_gap);
            }
        }
    }
}

spec fn lines_from_spans<S>(lines: Seq<LineModel<S>>) -> bool {
    forall|i: int| 0 <= i < lines.len() ==> metrics_from_spans(#[trigger] lines[i])
}

proof fn lemma_new_line_from_spans<S>(m: WrapModel<S>)
    requires
        m.vmetrics is None,
        lines_from_spans(m.lines),
    ensures
        lines_from_spans(model_new_line(m).lines),
{
    let spans = flatten(trim_trailing_whitespace(m.groups));
    lemma_line_metrics_attained(spans);
    match line_metrics(m.vmetrics, spans) {
        Some(mt) => {
            lemma_placed_index(spans);
            let line = LineModel { spans: placed(spans), metrics: mt, alignment_offset: 0 };
            let p = placed(spans);
            let ia = choose|i: int| 0 <= i < spans.len() && #[trigger] spans[i].metrics.ascent == mt.ascent;
            let id = choose|i: int| 0 <= i < spans.len() && #[trigger] spans[i].metrics.descent == mt.descent;
            let ig = choose|i: int| 0 <= i < spans.len() && #[trigger] spans[i].metrics.line_gap == mt.line_gap;
            assert(p[ia].metrics.ascent == mt.ascent);
            assert(p[id].metrics.descent == mt.descent);
            assert(p[ig].metrics.line_gap == mt.line_gap);
            assert(spans.len() > 0);
            assert(0 <= ia < line.spans.len() && line.spans[ia].metrics.ascent == line.metrics.ascent);
            assert(0 <= id < line.spans.len() && line.spans[id].metrics.descent == line.metrics.descent);
            assert(0 <= ig < line.spans.len() && line.spans[ig].metrics.line_gap == line.metrics.line_gap);
            assert(metrics_from_spans(line));
            let lines = model_new_line(m).lines;
            assert(lines == m.lines.push(line));
            assert forall|i: int| 0 <= i < lines.len() implies metrics_from_spans(#[trigger] lines[i]) by {
                if i < m.lines.len() {
                    assert(lines[i] == m.lines[i]);
                }
            }
        },
        None => {},
    }
}

proof fn lemma_run_from_spans<S>(m: WrapModel<S>, gs: Seq<GroupModel<S>>, single_line: bool)
    requires
        m.vmetrics is None,
        lines_from_spans(m.lines),
        !has_forced_break(gs),
    ensures
        model_run(m, gs, single_line).vmetrics is None,
        lines_from_spans(model_run(m, gs, single_line).lines),
    decreases gs.len(),
{
    if gs.len() > 0 {
        assert(!(gs[0] is EndOfLine));
        let (next, new_line) = model_push_group(m, gs[0], single_line);
        lemma_new_line_from_spans(m);
        if !(new_line && single_line) {
            let rest = gs.drop_first();
            assert forall|i: int| 0 <= i < rest.len() implies !(#[trigger] rest[i] is EndOfLine) by {
                assert(rest[i] == gs[i + 1]);
            }
            lemma_run_from_spans(next, rest, single_line);
        }
    }
}

/// Without forced line breaks, every line holds spans, and its ascent,
/// descent and line gap are each those of one of its own spans (the tallest,
/// the deepest and the widest, as its metrics cover all of them).
pub proof fn law_lines_take_metrics_from_their_spans<S>(groups: Seq<GroupModel<S>>, options: TextWrap)
    requires
        !has_forced_break(groups),
    ensures
        forall|i: int|
            0 <= i < wrapped_groups(groups, options).len() ==> metrics_from_spans(
                #[trigger] wrapped_groups(groups, options)[i],
            ),
{
    let init = initial_model::<S>(options.spec_width());
    lemma_run_from_spans(init, groups, !(options is MultiLine));
    lemma_new_line_from_spans(model_run(init, groups, !(options is MultiLine)));
}

/// What the wrapping options give: a multi-line block wraps to the width of
/// its size, a single line to its width, both with their alignment; text that
/// is not wrapped has neither a width nor an alignment.
pub proof fn law_wrap_options(size: crate::geometry::Size, width: i64, truncate: bool, alignment: Alignment)
    ensures
        (TextWrap::MultiLine { size, alignment }).spec_width() == Some(size.width),
        (TextWrap::MultiLine { size, alignment }).spec_alignment() == Some(alignment),
        (TextWrap::SingleLine { width, truncate, alignment }).spec_width() == Some(width),
        (TextWrap::SingleLine { width, truncate, alignment }).spec_alignment() == Some(alignment),
        TextWrap::NoWrap.spec_width() is None,
        TextWrap::NoWrap.spec_alignment() is None,
{
}

/// In every wrapped line the first span starts at zero and each next span
/// starts where the one before it ends.
pub proof fn law_spans_follow_each_other<S>(measured: MeasuredTextInfo<S>, options: TextWrap)
    requires
        wrap_fits(measured, options),
    ensures
        forall|i: int|
            0 <= i < wrapped_lines(measured, options).len() && wrapped_lines(measured, options)[i].spans.len() > 0
                ==> (#[trigger] wrapped_lines(measured, options)[i]).spans[0].location == 0,
        forall|i: int, j: int|
            0 <= i < wrapped_lines(measured, options).len() && 0 <= j < wrapped_lines(measured, options)[i].spans.len()
                - 1 ==> (#[trigger] wrapped_lines(measured, options)[i].spans[j]).location
                + wrapped_lines(measured, options)[i].spans[j].metrics.width == wrapped_lines(
                measured,
                options,
            )[i].spans[j + 1].location,
{
    let lines = wrapped_lines(measured, options);
    let unaligned = unaligned_lines(measured, options);
    law_wrapped_lines_well_formed(measured, options);
    law_lines_are_aligned(measured, options);
    lemma_unaligned_bounded(measured, options);
    let b: int = match measured {
        MeasuredTextInfo::Groups(groups) => spans_abs_width(flatten(groups_model(groups@))),
        MeasuredTextInfo::NoText(_) => 0,
    };
    assert forall|i: int| 0 <= i < lines.len() implies spans_abs_width(#[trigger] lines[i].spans) <= b
        && b <= i64::MAX by {
        assert(lines[i].spans == unaligned[i].spans);
        match measured {
            MeasuredTextInfo::Groups(groups) => {},
            MeasuredTextInfo::NoText(_) => {
                assert(unaligned[i].spans =~= Seq::<PreparedSpan<S>>::empty());
            },
        }
    }
    assert forall|i: int|
        0 <= i < lines.len() && lines[i].spans.len() > 0 implies (#[trigger] lines[i]).spans[0].location == 0 by {
        assert(line_is_placed(lines[i]));
        assert(lines[i].spans.take(0) =~= Seq::<PreparedSpan<S>>::empty());
    }
    assert forall|i: int, j: int| 0 <= i < lines.len() && 0 <= j < lines[i].spans.len() - 1 implies (
    #[trigger] lines[i].spans[j]).location + lines[i].spans[j].metrics.width == lines[i].spans[j + 1].location by {
        let sp = lines[i].spans;
        assert(line_is_placed(lines[i]));
        assert(sp[j].location == spans_width(sp.take(j)) as i64);
        assert(sp[j + 1].location == spans_width(sp.take(j + 1)) as i64);
        assert(sp.take(j + 1).drop_last() =~= sp.take(j));
        lemma_spans_abs_prefix(sp, j);
        lemma_spans_abs_prefix(sp, j + 1);
    }
}

proof fn lemma_line_metrics_covers_init<S>(init: TextMetrics, s: Seq<PreparedSpan<S>>)
    ensures
        line_metrics(Some(init), s) is Some,
        covers(line_metrics(Some(init), s).unwrap(), init),
    decreases s.len(),
{
    if s.len() > 0 {
        lemma_line_metrics_covers_init(init, s.drop_last());
        lemma_merge_covers(line_metrics(Some(init), s.drop_last()), s.last().metrics);
    }
}

/// The line a forced break ends is at least as tall, deep and widely spaced
/// as the break itself.
pub proof fn law_break_line_covers_the_break<S>(
    before: Seq<GroupModel<S>>,
    metrics: TextMetrics,
    size: crate::geometry::Size,
    alignment: Alignment,
)
    ensures
        ({
            let lines = wrapped_groups(
                before + seq![GroupModel::<S>::EndOfLine(metrics)],
                TextWrap::MultiLine { size, alignment },
            );
            lines.len() > 0 && covers(lines.last().metrics, metrics)
        }),
{
    let brk = seq![GroupModel::<S>::EndOfLine(metrics)];
    let init = initial_model::<S>(Some(size.width));
    lemma_run_concat(init, before, brk);
    let x = model_run(init, before, false);
    lemma_run_keeps_width_and_no_metrics(init, before);
    let (s, _) = model_push_group(x, brk[0], false);
    assert(model_run(s, Seq::<GroupModel<S>>::empty(), false) == s);
    assert(model_run(x, brk, false) == model_run(s, brk.drop_first(), false));
    assert(brk.drop_first() =~= Seq::<GroupModel<S>>::empty());
    lemma_line_metrics_covers_init(metrics, flatten(trim_trailing_whitespace(x.groups)));
    assert(s.lines.last().metrics == line_metrics(Some(metrics), flatten(trim_trailing_whitespace(x.groups))).unwrap());
    assert(model_finish(s) == s.lines);
}

} // verus!
