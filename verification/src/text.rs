//! Wrapping measured text into lines.

use vstd::prelude::*;

use crate::geometry::Size;
use crate::raster::half;

verus! {

/// How far a line may run past the wrapping width before the text that
/// overflows it moves to a new line: one thousandth of a point, the smallest
/// length there is.
pub const WRAP_TOLERANCE: i64 = 1;

/// Vertical and horizontal measurements of a run of text. The descent lies
/// below the baseline, so it is negative.
#[derive(Clone, Copy, Debug, PartialEq, Eq, Structural)]
pub struct TextMetrics {
    pub width: i64,
    pub ascent: i64,
    pub descent: i64,
    pub line_gap: i64,
}

impl TextMetrics {
    /// The height of the text: from the lowest descent to the highest ascent.
    pub open spec fn spec_height(self) -> int {
        self.ascent - self.descent
    }

    /// The height of the text: from the lowest descent to the highest ascent.
    pub fn height(&self) -> (h: i64)
        requires
            i64::MIN <= self.spec_height() <= i64::MAX,
        ensures
            h == self.spec_height(),
    {
        self.ascent - self.descent
    }
}

/// A measured piece of text, placed at `location` along its line.
///
/// `source` is whatever the caller needs to render the span later (its text
/// and style); wrapping only moves it.
#[derive(Debug)]
pub struct PreparedSpan<S> {
    pub source: S,
    pub metrics: TextMetrics,
    pub location: i64,
}

impl<S> PreparedSpan<S> {
    /// A span that has not been placed yet.
    pub fn new(source: S, metrics: TextMetrics) -> (span: PreparedSpan<S>)
        ensures
            span == (PreparedSpan { source, metrics, location: 0 }),
    {
        PreparedSpan { source, metrics, location: 0 }
    }

    /// The span's measurements.
    pub fn metrics(&self) -> (m: &TextMetrics)
        ensures
            *m == self.metrics,
    {
        &self.metrics
    }

    /// What the span renders.
    pub fn source(&self) -> (s: &S)
        ensures
            *s == self.source,
    {
        &self.source
    }

    /// Moves the span to `location` along its line.
    pub fn set_location(&mut self, location: i64)
        ensures
            *final(self) == (PreparedSpan {
                source: old(self).source,
                metrics: old(self).metrics,
                location,
            }),
    {
        self.location = location;
    }
}

/// Spans that wrap as a unit.
#[derive(Debug)]
pub enum SpanGroup<S> {
    /// Words and punctuation.
    Spans(Vec<PreparedSpan<S>>),
    /// Whitespace between words; dropped at the end of a line.
    Whitespace(Vec<PreparedSpan<S>>),
    /// A forced line break with the metrics of the text around it.
    EndOfLine(TextMetrics),
}

/// The mathematical value of a [`SpanGroup`].
pub enum GroupModel<S> {
    Spans(Seq<PreparedSpan<S>>),
    Whitespace(Seq<PreparedSpan<S>>),
    EndOfLine(TextMetrics),
}

impl<S> View for SpanGroup<S> {
    type V = GroupModel<S>;

    open spec fn view(&self) -> GroupModel<S> {
        match self {
            SpanGroup::Spans(spans) => GroupModel::Spans(spans@),
            SpanGroup::Whitespace(spans) => GroupModel::Whitespace(spans@),
            SpanGroup::EndOfLine(metrics) => GroupModel::EndOfLine(*metrics),
        }
    }
}

/// One wrapped line.
#[derive(Debug)]
pub struct PreparedLine<S> {
    pub spans: Vec<PreparedSpan<S>>,
    pub metrics: TextMetrics,
    pub alignment_offset: i64,
}

/// The mathematical value of a [`PreparedLine`].
pub struct LineModel<S> {
    pub spans: Seq<PreparedSpan<S>>,
    pub metrics: TextMetrics,
    pub alignment_offset: i64,
}

impl<S> View for PreparedLine<S> {
    type V = LineModel<S>;

    open spec fn view(&self) -> LineModel<S> {
        LineModel { spans: self.spans@, metrics: self.metrics, alignment_offset: self.alignment_offset }
    }
}

/// Wrapped text.
#[derive(Debug)]
pub struct PreparedText<S> {
    pub lines: Vec<PreparedLine<S>>,
}

pub open spec fn lines_model<S>(lines: Seq<PreparedLine<S>>) -> Seq<LineModel<S>> {
    lines.map_values(|l: PreparedLine<S>| l@)
}

impl<S> View for PreparedText<S> {
    type V = Seq<LineModel<S>>;

    open spec fn view(&self) -> Seq<LineModel<S>> {
        lines_model(self.lines@)
    }
}

/// Text after measuring, before wrapping.
#[derive(Debug)]
pub enum MeasuredTextInfo<S> {
    /// The text, cut into groups that wrap as units.
    Groups(Vec<SpanGroup<S>>),
    /// The text is empty; these are the metrics of an empty line.
    NoText(TextMetrics),
}

pub open spec fn groups_model<S>(groups: Seq<SpanGroup<S>>) -> Seq<GroupModel<S>> {
    groups.map_values(|g: SpanGroup<S>| g@)
}

// ---------------------------------------------------------------------------
// The model of wrapping.
// ---------------------------------------------------------------------------

/// The spans of a group, in order.
pub open spec fn group_spans<S>(g: GroupModel<S>) -> Seq<PreparedSpan<S>> {
    match g {
        GroupModel::Spans(s) => s,
        GroupModel::Whitespace(s) => s,
        GroupModel::EndOfLine(_) => Seq::empty(),
    }
}

/// The sum of the widths of `spans`.
pub open spec fn spans_width<S>(spans: Seq<PreparedSpan<S>>) -> int
    decreases spans.len(),
{
    if spans.len() == 0 {
        0
    } else {
        spans_width(spans.drop_last()) + spans.last().metrics.width
    }
}

/// The sum of the absolute values of the widths of `spans`.
pub open spec fn spans_abs_width<S>(spans: Seq<PreparedSpan<S>>) -> int
    decreases spans.len(),
{
    if spans.len() == 0 {
        0
    } else {
        let w = spans.last().metrics.width as int;
        spans_abs_width(spans.drop_last()) + if w < 0 { -w } else { w }
    }
}

/// The spans of all `groups`, in order.
pub open spec fn flatten<S>(groups: Seq<GroupModel<S>>) -> Seq<PreparedSpan<S>>
    decreases groups.len(),
{
    if groups.len() == 0 {
        Seq::empty()
    } else {
        flatten(groups.drop_last()) + group_spans(groups.last())
    }
}

/// `groups` without the whitespace groups at its end.
pub open spec fn trim_trailing_whitespace<S>(groups: Seq<GroupModel<S>>) -> Seq<GroupModel<S>>
    decreases groups.len(),
{
    if groups.len() > 0 && groups.last() is Whitespace {
        trim_trailing_whitespace(groups.drop_last())
    } else {
        groups
    }
}

/// Line metrics after taking in the metrics `new`: the tallest ascent, the
/// deepest descent and the widest line gap. The first metrics taken in are
/// kept whole; a merge resets the width to zero.
pub open spec fn merge_metrics(current: Option<TextMetrics>, new: TextMetrics) -> Option<TextMetrics> {
    match current {
        Some(m) => Some(
            TextMetrics {
                ascent: if m.ascent >= new.ascent { m.ascent } else { new.ascent },
                descent: if m.descent <= new.descent { m.descent } else { new.descent },
                line_gap: if m.line_gap >= new.line_gap { m.line_gap } else { new.line_gap },
                width: 0,
            },
        ),
        None => Some(new),
    }
}

/// The metrics of a line holding `spans`, starting from `init`.
pub open spec fn line_metrics<S>(init: Option<TextMetrics>, spans: Seq<PreparedSpan<S>>) -> Option<TextMetrics>
    decreases spans.len(),
{
    if spans.len() == 0 {
        init
    } else {
        merge_metrics(line_metrics(init, spans.drop_last()), spans.last().metrics)
    }
}

/// `spans` placed one after another from location zero.
pub open spec fn placed<S>(spans: Seq<PreparedSpan<S>>) -> Seq<PreparedSpan<S>>
    decreases spans.len(),
{
    if spans.len() == 0 {
        Seq::empty()
    } else {
        placed(spans.drop_last()).push(
            PreparedSpan {
                source: spans.last().source,
                metrics: spans.last().metrics,
                location: spans_width(spans.drop_last()) as i64,
            },
        )
    }
}

/// The state of wrapping, as mathematical values.
pub struct WrapModel<S> {
    pub width: Option<i64>,
    pub vmetrics: Option<TextMetrics>,
    pub offset: int,
    pub groups: Seq<GroupModel<S>>,
    pub lines: Seq<LineModel<S>>,
}

/// The state before the first group.
pub open spec fn initial_model<S>(width: Option<i64>) -> WrapModel<S> {
    WrapModel { width, vmetrics: None, offset: 0, groups: Seq::empty(), lines: Seq::empty() }
}

/// Ends the current line: its trailing whitespace is dropped, its spans are
/// placed one after another, and the line is kept when it has metrics.
pub open spec fn model_new_line<S>(m: WrapModel<S>) -> WrapModel<S> {
    let spans = flatten(trim_trailing_whitespace(m.groups));
    let metrics = line_metrics(m.vmetrics, spans);
    WrapModel {
        width: m.width,
        vmetrics: None,
        offset: 0,
        groups: Seq::empty(),
        lines: match metrics {
            Some(mt) => m.lines.push(LineModel { spans: placed(spans), metrics: mt, alignment_offset: 0 }),
            None => m.lines,
        },
    }
}

/// Whether a group of width `total` placed at `offset` breaks the line: it
/// runs past the wrapping width by more than the tolerance and the line
/// already holds something wide.
pub open spec fn breaks_line(width: Option<i64>, offset: int, total: int) -> bool {
    match width {
        Some(w) => w - (total + offset) < -WRAP_TOLERANCE && offset != 0,
        None => false,
    }
}

/// One step of wrapping: the new state, and whether a new line was started.
pub open spec fn model_push_group<S>(m: WrapModel<S>, g: GroupModel<S>, single_line: bool) -> (WrapModel<S>, bool) {
    match g {
        GroupModel::EndOfLine(metrics) => (
            model_new_line(
                WrapModel {
                    width: m.width,
                    vmetrics: merge_metrics(m.vmetrics, metrics),
                    offset: m.offset,
                    groups: m.groups,
                    lines: m.lines,
                },
            ),
            true,
        ),
        _ => {
            let total = spans_width(group_spans(g));
            if breaks_line(m.width, m.offset, total) {
                let nl = model_new_line(m);
                if single_line {
                    (nl, true)
                } else {
                    (
                        WrapModel {
                            width: nl.width,
                            vmetrics: nl.vmetrics,
                            offset: total,
                            groups: seq![g],
                            lines: nl.lines,
                        },
                        true,
                    )
                }
            } else {
                (
                    WrapModel {
                        width: m.width,
                        vmetrics: m.vmetrics,
                        offset: m.offset + total,
                        groups: m.groups.push(g),
                        lines: m.lines,
                    },
                    false,
                )
            }
        },
    }
}

/// Wrapping the groups `gs` from state `m`. In single-line mode wrapping stops
/// at the first new line.
pub open spec fn model_run<S>(m: WrapModel<S>, gs: Seq<GroupModel<S>>, single_line: bool) -> WrapModel<S>
    decreases gs.len(),
{
    if gs.len() == 0 {
        m
    } else {
        let (next, new_line) = model_push_group(m, gs[0], single_line);
        if new_line && single_line {
            next
        } else {
            model_run(next, gs.drop_first(), single_line)
        }
    }
}

/// The lines once every group has been taken in: an unfinished line is ended,
/// and so is an empty first line.
pub open spec fn model_finish<S>(m: WrapModel<S>) -> Seq<LineModel<S>> {
    if m.groups.len() > 0 || m.lines.len() == 0 {
        model_new_line(m).lines
    } else {
        m.lines
    }
}

// ---------------------------------------------------------------------------
// Lemmas on the model.
// ---------------------------------------------------------------------------

pub proof fn lemma_spans_width_concat<S>(a: Seq<PreparedSpan<S>>, b: Seq<PreparedSpan<S>>)
    ensures
        spans_width(a + b) == spans_width(a) + spans_width(b),
        spans_abs_width(a + b) == spans_abs_width(a) + spans_abs_width(b),
    decreases b.len(),
{
    if b.len() == 0 {
        assert(a + b =~= a);
    } else {
        assert((a + b).drop_last() =~= a + b.drop_last());
        lemma_spans_width_concat(a, b.drop_last());
    }
}

pub proof fn lemma_spans_abs_bounds<S>(s: Seq<PreparedSpan<S>>)
    ensures
        0 <= spans_abs_width(s),
        -spans_abs_width(s) <= spans_width(s) <= spans_abs_width(s),
    decreases s.len(),
{
    if s.len() > 0 {
        lemma_spans_abs_bounds(s.drop_last());
    }
}

pub proof fn lemma_spans_abs_prefix<S>(s: Seq<PreparedSpan<S>>, i: int)
    requires
        0 <= i <= s.len(),
    ensures
        spans_abs_width(s.take(i)) <= spans_abs_width(s),
        -spans_abs_width(s) <= spans_width(s.take(i)) <= spans_abs_width(s),
{
    assert(s =~= s.take(i) + s.skip(i));
    lemma_spans_width_concat(s.take(i), s.skip(i));
    lemma_spans_abs_bounds(s.skip(i));
    lemma_spans_abs_bounds(s.take(i));
}

pub proof fn lemma_flatten_concat<S>(a: Seq<GroupModel<S>>, b: Seq<GroupModel<S>>)
    ensures
        flatten(a + b) == flatten(a) + flatten(b),
    decreases b.len(),
{
    if b.len() == 0 {
        assert(a + b =~= a);
        assert(flatten(a) + flatten(b) =~= flatten(a));
    } else {
        assert((a + b).drop_last() =~= a + b.drop_last());
        lemma_flatten_concat(a, b.drop_last());
        assert(flatten(a + b) =~= flatten(a) + flatten(b));
    }
}

pub proof fn lemma_flatten_single<S>(g: GroupModel<S>)
    ensures
        flatten(seq![g]) == group_spans(g),
{
    assert(seq![g].drop_last() =~= Seq::<GroupModel<S>>::empty());
    assert(flatten(seq![g]) == flatten(Seq::<GroupModel<S>>::empty()) + group_spans(g));
    assert(flatten(seq![g]) =~= group_spans(g));
}

pub proof fn lemma_trim_abs<S>(groups: Seq<GroupModel<S>>)
    ensures
        spans_abs_width(flatten(trim_trailing_whitespace(groups))) <= spans_abs_width(flatten(groups)),
    decreases groups.len(),
{
    if groups.len() > 0 && groups.last() is Whitespace {
        lemma_trim_abs(groups.drop_last());
        lemma_spans_width_concat(flatten(groups.drop_last()), group_spans(groups.last()));
        lemma_spans_abs_bounds(group_spans(groups.last()));
    }
}


// ---------------------------------------------------------------------------
// Wrapping.
// ---------------------------------------------------------------------------

/// `v` in reverse order, so that popping yields its items front to back.
fn reversed<T>(v: Vec<T>) -> (r: Vec<T>)
    ensures
        r@.len() == v@.len(),
        forall|i: int| 0 <= i < r@.len() ==> r@[i] == v@[v@.len() - 1 - i],
{
    let ghost orig = v@;
    let mut v = v;
    let mut r: Vec<T> = Vec::new();
    while v.len() > 0
        invariant
            v@ == orig.take(v@.len() as int),
            v@.len() <= orig.len(),
            r@.len() + v@.len() == orig.len(),
            forall|i: int| 0 <= i < r@.len() ==> r@[i] == orig[orig.len() - 1 - i],
        decreases v.len(),
    {
        let x = v.pop().unwrap();
        r.push(x);
        assert(v@ =~= orig.take(v@.len() as int));
    }
    r
}

/// The sum of the widths of `spans`.
fn spans_total<S>(spans: &Vec<PreparedSpan<S>>) -> (total: i64)
    requires
        spans_abs_width(spans@) <= i64::MAX,
    ensures
        total == spans_width(spans@),
{
    let mut total: i64 = 0;
    let mut i: usize = 0;
    while i < spans.len()
        invariant
            i <= spans@.len(),
            spans_abs_width(spans@) <= i64::MAX,
            total == spans_width(spans@.take(i as int)),
        decreases spans.len() - i,
    {
        proof {
            lemma_spans_abs_prefix(spans@, i + 1);
            assert(spans@.take(i + 1).drop_last() =~= spans@.take(i as int));
        }
        total = total + spans[i].metrics.width;
        i = i + 1;
    }
    assert(spans@.take(i as int) =~= spans@);
    total
}

/// The sum of the widths of the spans of `group`.
fn group_total<S>(group: &SpanGroup<S>) -> (total: i64)
    requires
        spans_abs_width(group_spans(group@)) <= i64::MAX,
    ensures
        total == spans_width(group_spans(group@)),
{
    match group {
        SpanGroup::Spans(spans) => spans_total(spans),
        SpanGroup::Whitespace(spans) => spans_total(spans),
        SpanGroup::EndOfLine(_) => 0,
    }
}

/// The absolute value of the wrapping width, or zero without one.
pub open spec fn abs_limit(width: Option<i64>) -> int {
    match width {
        Some(w) => if w < 0 { -(w as int) } else { w as int },
        None => 0,
    }
}

struct TextWrapState<S> {
    width: Option<i64>,
    current_vmetrics: Option<TextMetrics>,
    current_span_offset: i64,
    current_groups: Vec<SpanGroup<S>>,
    lines: Vec<PreparedLine<S>>,
}

impl<S> View for TextWrapState<S> {
    type V = WrapModel<S>;

    closed spec fn view(&self) -> WrapModel<S> {
        WrapModel {
            width: self.width,
            vmetrics: self.current_vmetrics,
            offset: self.current_span_offset as int,
            groups: groups_model(self.current_groups@),
            lines: lines_model(self.lines@),
        }
    }
}

impl<S> TextWrapState<S> {
    spec fn wf(&self) -> bool {
        &&& self.current_span_offset == spans_width(flatten(self@.groups))
        &&& spans_abs_width(flatten(self@.groups)) <= i64::MAX
    }

    fn update_vmetrics(&mut self, new_metrics: TextMetrics)
        ensures
            final(self).current_vmetrics == merge_metrics(old(self).current_vmetrics, new_metrics),
            final(self).width == old(self).width,
            final(self).current_span_offset == old(self).current_span_offset,
            final(self).current_groups@ == old(self).current_groups@,
            final(self).lines@ == old(self).lines@,
    {
        self.current_vmetrics = match self.current_vmetrics {
            Some(metrics) => Some(
                TextMetrics {
                    ascent: if metrics.ascent >= new_metrics.ascent {
                        metrics.ascent
                    } else {
                        new_metrics.ascent
                    },
                    descent: if metrics.descent <= new_metrics.descent {
                        metrics.descent
                    } else {
                        new_metrics.descent
                    },
                    line_gap: if metrics.line_gap >= new_metrics.line_gap {
                        metrics.line_gap
                    } else {
                        new_metrics.line_gap
                    },
                    width: 0,
                },
            ),
            None => Some(new_metrics),
        };
    }

    fn position_span(&mut self, span: &mut PreparedSpan<S>)
        requires
            i64::MIN <= old(self).current_span_offset + old(span).metrics.width <= i64::MAX,
        ensures
            *final(span) == (PreparedSpan {
                source: old(span).source,
                metrics: old(span).metrics,
                location: old(self).current_span_offset,
            }),
            final(self).current_span_offset == old(self).current_span_offset + old(span).metrics.width,
            final(self).current_vmetrics == old(self).current_vmetrics,
            final(self).width == old(self).width,
            final(self).current_groups@ == old(self).current_groups@,
            final(self).lines@ == old(self).lines@,
    {
        let width = span.metrics.width;
        span.set_location(self.current_span_offset);
        self.current_span_offset = self.current_span_offset + width;
    }

    fn new_line(&mut self)
        requires
            old(self).wf(),
        ensures
            final(self)@ == model_new_line(old(self)@),
            final(self).wf(),
    {
        let ghost orig = self@;
        let ghost orig_lines = self.lines@;
        // Remove any whitespace from the end of the line.
        loop
            invariant
                trim_trailing_whitespace(groups_model(self.current_groups@))
                    == trim_trailing_whitespace(orig.groups),
                spans_abs_width(flatten(groups_model(self.current_groups@)))
                    <= spans_abs_width(flatten(orig.groups)),
                spans_abs_width(flatten(orig.groups)) <= i64::MAX,
                self.width == orig.width,
                self.current_vmetrics == orig.vmetrics,
                self.lines@ == orig_lines,
            ensures
                trim_trailing_whitespace(groups_model(self.current_groups@))
                    == groups_model(self.current_groups@),
            decreases self.current_groups.len(),
        {
            let n = self.current_groups.len();
            if n == 0 {
                break;
            }
            let is_whitespace = match &self.current_groups[n - 1] {
                SpanGroup::Whitespace(_) => true,
                _ => false,
            };
            if !is_whitespace {
                break;
            }
            let ghost before = groups_model(self.current_groups@);
            self.current_groups.pop();
            proof {
                assert(groups_model(self.current_groups@) =~= before.drop_last());
                lemma_spans_width_concat(flatten(before.drop_last()), group_spans(before.last()));
                lemma_spans_abs_bounds(group_spans(before.last()));
            }
        }
        let ghost trimmed = groups_model(self.current_groups@);
        proof {
            lemma_trim_abs(orig.groups);
        }

        // Gather the spans of the remaining groups.
        let mut groups: Vec<SpanGroup<S>> = Vec::new();
        std::mem::swap(&mut groups, &mut self.current_groups);
        let ghost n = trimmed.len();
        let mut rev = reversed(groups);
        let mut spans: Vec<PreparedSpan<S>> = Vec::new();
        while rev.len() > 0
            invariant
                rev@.len() <= n,
                n == trimmed.len(),
                forall|j: int| 0 <= j < rev@.len() ==> #[trigger] rev@[j]@ == trimmed[n - 1 - j],
                spans@ == flatten(trimmed.take(n - rev@.len())),
            decreases rev.len(),
        {
            let ghost k = n - rev@.len();
            let group = rev.pop().unwrap();
            proof {
                assert(group@ == trimmed[k]);
                assert(trimmed.take(k + 1).drop_last() =~= trimmed.take(k));
            }
            match group {
                SpanGroup::Spans(mut v) => spans.append(&mut v),
                SpanGroup::Whitespace(mut v) => spans.append(&mut v),
                SpanGroup::EndOfLine(_) => {},
            }
            proof {
                assert(spans@ =~= flatten(trimmed.take(k + 1)));
            }
        }
        assert(trimmed.take(n as int) =~= trimmed);
        let ghost flat = spans@;
        let ghost m = flat.len();

        // Place the spans one after another and take in their metrics.
        self.current_span_offset = 0;
        let mut rspans = reversed(spans);
        let mut line_spans: Vec<PreparedSpan<S>> = Vec::new();
        while rspans.len() > 0
            invariant
                rspans@.len() <= m,
                m == flat.len(),
                forall|j: int| 0 <= j < rspans@.len() ==> #[trigger] rspans@[j] == flat[m - 1 - j],
                line_spans@ == placed(flat.take(m - rspans@.len())),
                self.current_span_offset == spans_width(flat.take(m - rspans@.len())),
                self.current_vmetrics == line_metrics(orig.vmetrics, flat.take(m - rspans@.len())),
                spans_abs_width(flat) <= i64::MAX,
                self.width == orig.width,
                self.lines@ == orig_lines,
                self.current_groups@.len() == 0,
            decreases rspans.len(),
        {
            let ghost k = m - rspans@.len();
            let mut span = rspans.pop().unwrap();
            proof {
                assert(span == flat[k]);
                lemma_spans_abs_prefix(flat, k + 1);
                assert(flat.take(k + 1).drop_last() =~= flat.take(k));
            }
            self.update_vmetrics(span.metrics);
            self.position_span(&mut span);
            line_spans.push(span);
            proof {
                assert(line_spans@ =~= placed(flat.take(k + 1)));
            }
        }
        assert(flat.take(m as int) =~= flat);

        let metrics = self.current_vmetrics.take();
        match metrics {
            Some(metrics) => {
                let line = PreparedLine { spans: line_spans, metrics, alignment_offset: 0 };
                self.lines.push(line);
                assert(lines_model(self.lines@) =~= lines_model(orig_lines).push(line@));
            },
            None => {},
        }
        self.current_span_offset = 0;
        assert(groups_model(self.current_groups@) =~= Seq::<GroupModel<S>>::empty());
    }

    fn push_group(&mut self, group: SpanGroup<S>, single_line: bool) -> (new_line: bool)
        requires
            old(self).wf(),
            abs_limit(old(self).width) + spans_abs_width(flatten(old(self)@.groups))
                + spans_abs_width(group_spans(group@)) <= i64::MAX,
        ensures
            (final(self)@, new_line) == model_push_group(old(self)@, group@, single_line),
            final(self).wf(),
            spans_abs_width(flatten(final(self)@.groups)) <= spans_abs_width(
                flatten(old(self)@.groups),
            ) + spans_abs_width(group_spans(group@)),
    {
        let ghost orig = self@;
        proof {
            lemma_spans_abs_bounds(flatten(orig.groups));
            lemma_spans_abs_bounds(group_spans(group@));
        }
        match &group {
            SpanGroup::EndOfLine(metrics) => {
                let metrics = *metrics;
                self.update_vmetrics(metrics);
                self.new_line();
                return true;
            },
            _ => {},
        }
        let total = group_total(&group);
        let mut new_line = false;
        match self.width {
            Some(width) => {
                let new_width = total + self.current_span_offset;
                let remaining_width = width - new_width;
                // Past the width by more than the tolerance.
                if remaining_width < -WRAP_TOLERANCE {
                    if self.current_span_offset == 0 {
                        // A group wider than the line stays on its own line.
                    } else {
                        self.new_line();
                        new_line = true;
                        if single_line {
                            return new_line;
                        }
                    }
                }
            },
            None => {},
        }
        let ghost before = groups_model(self.current_groups@);
        self.current_span_offset = self.current_span_offset + total;
        self.current_groups.push(group);
        proof {
            assert(groups_model(self.current_groups@) =~= before.push(group@));
            assert(before.push(group@).drop_last() =~= before);
            lemma_spans_width_concat(flatten(before), group_spans(group@));
            if new_line {
                assert(before.push(group@) =~= seq![group@]);
            }
        }
        new_line
    }

    fn finish(self) -> (lines: Vec<PreparedLine<S>>)
        requires
            self.wf(),
        ensures
            lines_model(lines@) == model_finish(self@),
    {
        let mut state = self;
        if state.current_groups.len() > 0 || state.lines.len() == 0 {
            state.new_line();
        }
        state.lines
    }
}

/// How lines are aligned within the wrapping width.
#[derive(Clone, Copy, Debug, PartialEq, Eq, Structural)]
pub enum Alignment {
    Left,
    Center,
    Right,
}

/// Text wrapping options.
#[derive(Clone, Copy, Debug, PartialEq, Eq, Structural)]
pub enum TextWrap {
    /// Do not wrap the text.
    NoWrap,
    /// Render the text in a single line: wrapping stops before the first group
    /// that would run past `width` (the first group is always kept).
    SingleLine {
        /// The width of the line to render within.
        width: i64,
        /// Whether text that does not fit should be truncated when it is
        /// rendered; wrapping itself does not look at it.
        truncate: bool,
        /// Within `width`, use this `alignment`.
        alignment: Alignment,
    },
    /// Render a multi-line text block.
    MultiLine {
        /// The size of the text area.
        size: Size,
        /// Controls the alignment of the lines of text.
        alignment: Alignment,
    },
}

impl TextWrap {
    /// The width of the rendered area, if one was provided.
    pub open spec fn spec_width(self) -> Option<i64> {
        match self {
            TextWrap::MultiLine { size, .. } => Some(size.width),
            TextWrap::SingleLine { width, .. } => Some(width),
            TextWrap::NoWrap => None,
        }
    }

    /// The alignment to use.
    pub open spec fn spec_alignment(self) -> Option<Alignment> {
        match self {
            TextWrap::NoWrap => None,
            TextWrap::MultiLine { alignment, .. } => Some(alignment),
            TextWrap::SingleLine { alignment, .. } => Some(alignment),
        }
    }

    /// Returns true if this is a multiline wrap.
    pub fn is_multiline(&self) -> (b: bool)
        ensures
            b == (*self is MultiLine),
    {
        match self {
            TextWrap::MultiLine { .. } => true,
            _ => false,
        }
    }

    /// Returns true if this is a single-line wrap.
    pub fn is_single_line(&self) -> (b: bool)
        ensures
            b == !(*self is MultiLine),
    {
        !self.is_multiline()
    }

    /// Returns the width of the rendered area, if one was provided.
    pub fn width(&self) -> (w: Option<i64>)
        ensures
            w == self.spec_width(),
    {
        match self {
            TextWrap::MultiLine { size, .. } => Some(size.width),
            TextWrap::SingleLine { width, .. } => Some(*width),
            TextWrap::NoWrap => None,
        }
    }

    /// Returns the height of the rendered area, if one was provided.
    pub fn height(&self) -> (h: Option<i64>)
        ensures
            h == (match *self {
                TextWrap::MultiLine { size, .. } => Some(size.height),
                _ => None,
            }),
    {
        match self {
            TextWrap::MultiLine { size, .. } => Some(size.height),
            _ => None,
        }
    }

    /// Returns whether to truncate the text or not when rendering.
    pub fn truncate(&self) -> (t: bool)
        ensures
            t == (match *self {
                TextWrap::SingleLine { truncate, .. } => truncate,
                _ => false,
            }),
    {
        match self {
            TextWrap::SingleLine { truncate, .. } => *truncate,
            _ => false,
        }
    }

    /// Returns the alignment to use.
    pub fn alignment(&self) -> (a: Option<Alignment>)
        ensures
            a == self.spec_alignment(),
    {
        match self {
            TextWrap::NoWrap => None,
            TextWrap::MultiLine { alignment, .. } => Some(*alignment),
            TextWrap::SingleLine { alignment, .. } => Some(*alignment),
        }
    }
}

/// Whether wrapping `measured` with `options` stays within the range of the
/// length type: the wrapping width and the widths of all spans, taken
/// absolutely, sum to at most `i64::MAX`.
pub open spec fn wrap_fits<S>(measured: MeasuredTextInfo<S>, options: TextWrap) -> bool {
    match measured {
        MeasuredTextInfo::Groups(groups) => abs_limit(options.spec_width()) + spans_abs_width(
            flatten(groups_model(groups@)),
        ) <= i64::MAX,
        MeasuredTextInfo::NoText(_) => true,
    }
}

/// The lines that wrapping `groups` with `options` produces.
pub open spec fn wrapped_groups<S>(groups: Seq<GroupModel<S>>, options: TextWrap) -> Seq<LineModel<S>> {
    model_finish(model_run(initial_model(options.spec_width()), groups, !(options is MultiLine)))
}

/// The lines that wrapping `measured` with `options` produces, before they
/// are aligned.
pub open spec fn unaligned_lines<S>(measured: MeasuredTextInfo<S>, options: TextWrap) -> Seq<LineModel<S>> {
    match measured {
        MeasuredTextInfo::Groups(groups) => wrapped_groups(groups_model(groups@), options),
        MeasuredTextInfo::NoText(metrics) => seq![
            LineModel { spans: Seq::empty(), metrics, alignment_offset: 0 },
        ],
    }
}

/// The width of a line: the sum of the widths of its spans.
pub open spec fn line_width<S>(line: LineModel<S>) -> int {
    spans_width(line.spans)
}

/// How far a line `line_width` wide is moved right to be aligned within
/// `width`: not at all on the left, by half of what is left over (rounded
/// toward zero) in the center, and by all of it on the right.
pub open spec fn alignment_offset(alignment: Alignment, width: i64, line_width: int) -> int {
    match alignment {
        Alignment::Left => 0,
        Alignment::Center => half(width - line_width),
        Alignment::Right => width - line_width,
    }
}

/// `lines` aligned within `width`.
pub open spec fn aligned_with<S>(lines: Seq<LineModel<S>>, alignment: Alignment, width: i64) -> Seq<LineModel<S>> {
    lines.map_values(
        |l: LineModel<S>|
            LineModel {
                spans: l.spans,
                metrics: l.metrics,
                alignment_offset: alignment_offset(alignment, width, line_width(l)) as i64,
            },
    )
}

/// `lines` aligned as `options` say: only options with both an alignment and
/// a width align.
pub open spec fn aligned<S>(lines: Seq<LineModel<S>>, options: TextWrap) -> Seq<LineModel<S>> {
    match (options.spec_alignment(), options.spec_width()) {
        (Some(alignment), Some(width)) => aligned_with(lines, alignment, width),
        _ => lines,
    }
}

/// The lines that wrapping `measured` with `options` produces.
pub open spec fn wrapped_lines<S>(measured: MeasuredTextInfo<S>, options: TextWrap) -> Seq<LineModel<S>> {
    aligned(unaligned_lines(measured, options), options)
}

/// Every line in `lines` has spans whose absolute widths sum to at most `b`.
pub open spec fn lines_abs_within<S>(lines: Seq<LineModel<S>>, b: int) -> bool {
    forall|i: int| 0 <= i < lines.len() ==> spans_abs_width(#[trigger] lines[i].spans) <= b
}

proof fn lemma_abs_same_metrics<S>(a: Seq<PreparedSpan<S>>, b: Seq<PreparedSpan<S>>)
    requires
        a.len() == b.len(),
        forall|i: int| 0 <= i < a.len() ==> a[i].metrics == b[i].metrics,
    ensures
        spans_abs_width(a) == spans_abs_width(b),
        spans_width(a) == spans_width(b),
    decreases a.len(),
{
    if a.len() > 0 {
        lemma_abs_same_metrics(a.drop_last(), b.drop_last());
    }
}

proof fn lemma_placed_metrics<S>(s: Seq<PreparedSpan<S>>)
    ensures
        placed(s).len() == s.len(),
        forall|i: int| 0 <= i < s.len() ==> #[trigger] placed(s)[i].metrics == s[i].metrics,
    decreases s.len(),
{
    if s.len() > 0 {
        lemma_placed_metrics(s.drop_last());
        assert forall|i: int| 0 <= i < s.len() implies #[trigger] placed(s)[i].metrics == s[i].metrics by {
            if i < s.len() - 1 {
                assert(s.drop_last()[i] == s[i]);
            }
        }
    }
}

proof fn lemma_new_line_bounded<S>(m: WrapModel<S>, b: int)
    requires
        lines_abs_within(m.lines, b),
        spans_abs_width(flatten(m.groups)) <= b,
    ensures
        lines_abs_within(model_new_line(m).lines, b),
{
    let spans = flatten(trim_trailing_whitespace(m.groups));
    lemma_trim_abs(m.groups);
    lemma_placed_metrics(spans);
    lemma_abs_same_metrics(placed(spans), spans);
    let lines = model_new_line(m).lines;
    assert forall|i: int| 0 <= i < lines.len() implies spans_abs_width(#[trigger] lines[i].spans) <= b by {
        if i < m.lines.len() {
            assert(lines[i] == m.lines[i]);
        }
    }
}

proof fn lemma_run_bounded<S>(m: WrapModel<S>, gs: Seq<GroupModel<S>>, single_line: bool, b: int)
    requires
        lines_abs_within(m.lines, b),
        spans_abs_width(flatten(m.groups)) + spans_abs_width(flatten(gs)) <= b,
    ensures
        lines_abs_within(model_run(m, gs, single_line).lines, b),
        spans_abs_width(flatten(model_run(m, gs, single_line).groups)) <= b,
    decreases gs.len(),
{
    lemma_spans_abs_bounds(flatten(gs));
    lemma_spans_abs_bounds(flatten(m.groups));
    if gs.len() > 0 {
        let g = gs[0];
        let rest = gs.drop_first();
        assert(gs =~= seq![g] + rest);
        lemma_flatten_concat(seq![g], rest);
        lemma_flatten_single(g);
        lemma_spans_width_concat(group_spans(g), flatten(rest));
        lemma_spans_abs_bounds(flatten(rest));
        lemma_spans_abs_bounds(group_spans(g));
        let (next, new_line) = model_push_group(m, g, single_line);
        let empty = Seq::<PreparedSpan<S>>::empty();
        match g {
            GroupModel::EndOfLine(metrics) => {
                lemma_new_line_bounded(
                    WrapModel {
                        width: m.width,
                        vmetrics: merge_metrics(m.vmetrics, metrics),
                        offset: m.offset,
                        groups: m.groups,
                        lines: m.lines,
                    },
                    b,
                );
                assert(flatten(next.groups) =~= empty);
            },
            _ => {
                let total = spans_width(group_spans(g));
                if breaks_line(m.width, m.offset, total) {
                    lemma_new_line_bounded(m, b);
                    if !single_line {
                        assert(next.groups == seq![g]);
                    } else {
                        assert(flatten(next.groups) =~= empty);
                    }
                } else {
                    assert(next.groups == m.groups.push(g));
                    assert(m.groups.push(g).drop_last() =~= m.groups);
                    lemma_spans_width_concat(flatten(m.groups), group_spans(g));
                }
            },
        }
        assert(spans_abs_width(flatten(next.groups)) <= spans_abs_width(flatten(m.groups))
            + spans_abs_width(group_spans(g)));
        assert(spans_abs_width(empty) == 0);
        if !(new_line && single_line) {
            lemma_run_bounded(next, rest, single_line, b);
        }
    }
}

/// Every unaligned line's spans have absolute widths summing to at most those
/// of all of the text.
pub proof fn lemma_unaligned_bounded<S>(measured: MeasuredTextInfo<S>, options: TextWrap)
    ensures
        measured matches MeasuredTextInfo::Groups(groups) ==> lines_abs_within(
            unaligned_lines(measured, options),
            spans_abs_width(flatten(groups_model(groups@))),
        ),
{
    match measured {
        MeasuredTextInfo::Groups(groups) => {
            let gm = groups_model(groups@);
            let b = spans_abs_width(flatten(gm));
            let init = initial_model::<S>(options.spec_width());
            assert(flatten(init.groups) =~= Seq::<PreparedSpan<S>>::empty());
            lemma_run_bounded(init, gm, !(options is MultiLine), b);
            lemma_new_line_bounded(model_run(init, gm, !(options is MultiLine)), b);
        },
        MeasuredTextInfo::NoText(_) => {},
    }
}

/// Whether a line with `spans` can be aligned within `width` in `i64`.
spec fn line_fits<S>(spans: Seq<PreparedSpan<S>>, width: i64) -> bool {
    &&& spans_abs_width(spans) <= i64::MAX
    &&& i64::MIN <= width - spans_abs_width(spans)
    &&& width + spans_abs_width(spans) <= i64::MAX
}

/// `lines` aligned within `width`.
fn align_lines<S>(lines: Vec<PreparedLine<S>>, alignment: Alignment, width: i64) -> (out: Vec<PreparedLine<S>>)
    requires
        forall|i: int| 0 <= i < lines@.len() ==> line_fits(#[trigger] lines@[i].spans@, width),
    ensures
        lines_model(out@) == aligned_with(lines_model(lines@), alignment, width),
{
    let ghost orig = lines@;
    let ghost n = orig.len();
    let mut rev = reversed(lines);
    let mut out: Vec<PreparedLine<S>> = Vec::new();
    while rev.len() > 0
        invariant
            rev@.len() <= n,
            n == orig.len(),
            forall|j: int| 0 <= j < rev@.len() ==> #[trigger] rev@[j] == orig[n - 1 - j],
            forall|i: int| 0 <= i < orig.len() ==> line_fits(#[trigger] orig[i].spans@, width),
            out@.len() == n - rev@.len(),
            lines_model(out@) == aligned_with(lines_model(orig.take(n - rev@.len())), alignment, width),
        decreases rev.len(),
    {
        let ghost k = n - rev@.len();
        let mut line = rev.pop().unwrap();
        proof {
            assert(line == orig[k]);
            lemma_spans_abs_bounds(line.spans@);
        }
        let line_width = spans_total(&line.spans);
        let offset = match alignment {
            Alignment::Left => 0,
            Alignment::Center => (width - line_width) / 2,
            Alignment::Right => width - line_width,
        };
        assert(offset == alignment_offset(alignment, width, spans_width(orig[k].spans@)));
        line.alignment_offset = offset;
        let ghost before = out@;
        out.push(line);
        proof {
            let prev = aligned_with(lines_model(orig.take(k)), alignment, width);
            let next = aligned_with(lines_model(orig.take(k + 1)), alignment, width);
            assert(lines_model(before) == prev);
            assert(next.len() == k + 1);
            assert forall|i: int| 0 <= i < k + 1 implies #[trigger] lines_model(out@)[i] == next[i] by {
                if i < k {
                    assert(out@[i] == before[i]);
                    assert(lines_model(before)[i] == prev[i]);
                    assert(orig.take(k + 1)[i] == orig.take(k)[i]);
                } else {
                    assert(orig.take(k + 1)[i] == orig[k]);
                }
            }
            assert(lines_model(out@) =~= next);
        }
    }
    assert(orig.take(n as int) =~= orig);
    out
}

/// Lays measured text out in lines.
pub struct TextWrapper<S> {
    options: TextWrap,
    prepared_text: PreparedText<S>,
}

impl<S> TextWrapper<S> {
    /// Wraps `measured` as `options` say, and aligns the lines within the
    /// width when the options give both an alignment and a width.
    pub fn wrap(measured: MeasuredTextInfo<S>, options: TextWrap) -> (text: PreparedText<S>)
        requires
            wrap_fits(measured, options),
        ensures
            text@ == wrapped_lines(measured, options),
    {
        TextWrapper { options, prepared_text: PreparedText { lines: Vec::new() } }.wrap_text(measured)
    }

    fn wrap_text(self, measured: MeasuredTextInfo<S>) -> (text: PreparedText<S>)
        requires
            wrap_fits(measured, self.options),
            self.prepared_text.lines@.len() == 0,
        ensures
            text@ == wrapped_lines(measured, self.options),
    {
        let ghost measured0 = measured;
        let mut this = self;
        let width = this.options.width();
        match measured {
            MeasuredTextInfo::Groups(groups) => {
                let single_line = this.options.is_single_line();
                let mut state = TextWrapState {
                    width,
                    current_span_offset: 0,
                    current_vmetrics: None,
                    current_groups: Vec::new(),
                    lines: Vec::new(),
                };
                let ghost gm = groups_model(groups@);
                let ghost n = gm.len();
                proof {
                    assert(state@.groups =~= Seq::<GroupModel<S>>::empty());
                    assert(state@.lines =~= Seq::<LineModel<S>>::empty());
                    assert(state@ == initial_model::<S>(width));
                    assert(gm.skip(0) =~= gm);
                }
                let ghost target = model_run(state@, gm, single_line);
                let mut rev = reversed(groups);
                loop
                    invariant_except_break
                        model_run(state@, gm.skip(n - rev@.len()), single_line) == target,
                        abs_limit(state.width) + spans_abs_width(flatten(state@.groups))
                            + spans_abs_width(flatten(gm.skip(n - rev@.len()))) <= i64::MAX,
                    invariant
                        rev@.len() <= n,
                        n == gm.len(),
                        forall|j: int| 0 <= j < rev@.len() ==> #[trigger] rev@[j]@ == gm[n - 1 - j],
                        state.wf(),
                        state.width == width,
                    ensures
                        state@ == target,
                        state.wf(),
                    decreases rev.len(),
                {
                    if rev.len() == 0 {
                        proof {
                            assert(gm.skip(n as int) =~= Seq::<GroupModel<S>>::empty());
                        }
                        break;
                    }
                    let ghost k = n - rev@.len();
                    let group = rev.pop().unwrap();
                    proof {
                        assert(group@ == gm[k]);
                        assert(gm.skip(k) =~= seq![gm[k]] + gm.skip(k + 1));
                        lemma_flatten_concat(seq![gm[k]], gm.skip(k + 1));
                        lemma_flatten_single(gm[k]);
                        lemma_spans_width_concat(group_spans(gm[k]), flatten(gm.skip(k + 1)));
                        lemma_spans_abs_bounds(flatten(gm.skip(k + 1)));
                        assert(gm.skip(k).drop_first() =~= gm.skip(k + 1));
                    }
                    let new_line = state.push_group(group, single_line);
                    if new_line && single_line {
                        break;
                    }
                }
                this.prepared_text.lines = state.finish();
            },
            MeasuredTextInfo::NoText(metrics) => {
                this.prepared_text.lines.push(
                    PreparedLine { metrics, alignment_offset: 0, spans: Vec::new() },
                );
                proof {
                    let line = this.prepared_text.lines@[0];
                    assert(line.spans@ =~= Seq::<PreparedSpan<S>>::empty());
                    assert(this.prepared_text@ =~= seq![
                        LineModel { spans: Seq::<PreparedSpan<S>>::empty(), metrics, alignment_offset: 0 },
                    ]);
                }
            },
        }
        let ghost unaligned = this.prepared_text.lines@;
        proof {
            lemma_unaligned_bounded(measured0, this.options);
            assert(lines_model(unaligned) == unaligned_lines(measured0, this.options));
            match measured0 {
                MeasuredTextInfo::Groups(groups) => {
                    assert forall|i: int| 0 <= i < unaligned.len() implies width matches Some(w)
                        ==> line_fits(#[trigger] unaligned[i].spans@, w) by {
                        assert(lines_model(unaligned)[i].spans == unaligned[i].spans@);
                        lemma_spans_abs_bounds(unaligned[i].spans@);
                    }
                },
                MeasuredTextInfo::NoText(_) => {
                    assert(unaligned[0].spans@ =~= Seq::<PreparedSpan<S>>::empty());
                    assert(unaligned.len() == 1);
                    assert forall|i: int| 0 <= i < unaligned.len() implies width matches Some(w)
                        ==> line_fits(#[trigger] unaligned[i].spans@, w) by {
                        assert(spans_abs_width(unaligned[0].spans@) == 0);
                    }
                },
            }
        }
        match this.options.alignment() {
            Some(alignment) => match width {
                Some(max_width) => {
                    let mut lines: Vec<PreparedLine<S>> = Vec::new();
                    std::mem::swap(&mut lines, &mut this.prepared_text.lines);
                    this.prepared_text.lines = align_lines(lines, alignment, max_width);
                },
                None => {},
            },
            None => {},
        }
        this.prepared_text
    }
}

} // verus!
