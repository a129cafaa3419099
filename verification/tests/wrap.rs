use gooey::geometry::Size;
use gooey::text::{
    Alignment, MeasuredTextInfo, PreparedSpan, PreparedText, SpanGroup, TextMetrics, TextWrap,
    TextWrapper,
};

/// Lengths are in thousandths of a point.
const UNITS: i64 = 1000;

/// Metrics of `text` set in a font of `font_size` points: every character is
/// 0.6 em wide, ascent 0.8 em, descent -0.2 em, line gap 0.1 em.
fn measure(text: &str, font_size: i64) -> TextMetrics {
    TextMetrics {
        width: font_size * UNITS * text.len() as i64 * 6 / 10,
        ascent: font_size * UNITS * 8 / 10,
        descent: -font_size * UNITS * 2 / 10,
        line_gap: font_size * UNITS / 10,
    }
}

fn span(text: &str, font_size: i64) -> PreparedSpan<String> {
    PreparedSpan::new(text.to_string(), measure(text, font_size))
}

/// Cuts `text` into word and whitespace groups of one span each.
fn groups(text: &str, font_size: i64) -> Vec<SpanGroup<String>> {
    let mut out = Vec::new();
    let mut word = String::new();
    for c in text.chars() {
        if c == ' ' {
            if !word.is_empty() {
                out.push(SpanGroup::Spans(vec![span(&word, font_size)]));
                word.clear();
            }
            out.push(SpanGroup::Whitespace(vec![span(" ", font_size)]));
        } else {
            word.push(c);
        }
    }
    if !word.is_empty() {
        out.push(SpanGroup::Spans(vec![span(&word, font_size)]));
    }
    out
}

fn multi_line(width_points: i64) -> TextWrap {
    TextWrap::MultiLine {
        size: Size { width: width_points * UNITS, height: i64::MAX },
        alignment: Alignment::Left,
    }
}

fn texts(wrapped: &PreparedText<String>, line: usize) -> Vec<&str> {
    wrapped.lines[line].spans.iter().map(|s| s.source().as_str()).collect()
}

#[test]
/// This test should have "This line should " be on the first line and "wrap" on the second
fn wrap_one_word() {
    let wrap = TextWrapper::wrap(
        MeasuredTextInfo::Groups(groups("This line should wrap", 12)),
        TextWrap::MultiLine {
            size: Size { width: 80 * UNITS, height: i64::MAX },
            alignment: Alignment::Left,
        },
    );
    assert_eq!(wrap.lines.len(), 2);
    assert_eq!(wrap.lines[0].spans.len(), 3); // "this"," ","line"
    assert_eq!(wrap.lines[1].spans.len(), 3); // "should"," ","wrap"
    assert_eq!(wrap.lines[1].spans[0].source(), "should");
}

#[test]
/// This test should have "This line should " be on the first line and "wrap" on the second
fn wrap_one_word_different_span() {
    let mut measured = groups("This line should ", 12);
    measured.extend(groups("wrap", 10));
    let wrap = TextWrapper::wrap(
        MeasuredTextInfo::Groups(measured),
        TextWrap::MultiLine {
            size: Size { width: 130 * UNITS, height: i64::MAX },
            alignment: Alignment::Left,
        },
    );
    assert_eq!(wrap.lines.len(), 2);
    assert_eq!(wrap.lines[0].spans.len(), 5);
    assert_eq!(wrap.lines[1].spans.len(), 1);
    assert_eq!(wrap.lines[1].spans[0].source(), "wrap");
    assert_ne!(
        wrap.lines[0].spans[0].metrics().ascent,
        wrap.lines[1].spans[0].metrics().ascent
    );
}

#[test]
fn wrapped_spans_sit_one_after_another() {
    let wrap = TextWrapper::wrap(
        MeasuredTextInfo::Groups(groups("This line should wrap", 12)),
        multi_line(80),
    );
    // 7.2 points per character.
    let first: Vec<i64> = wrap.lines[0].spans.iter().map(|s| s.location).collect();
    assert_eq!(first, vec![0, 28_800, 36_000]);
    let second: Vec<i64> = wrap.lines[1].spans.iter().map(|s| s.location).collect();
    assert_eq!(second, vec![0, 43_200, 50_400]);
    for line in &wrap.lines {
        let mut offset = 0;
        for span in &line.spans {
            assert_eq!(span.location, offset);
            offset += span.metrics().width;
        }
    }
}

#[test]
fn line_metrics_cover_every_span() {
    let mut measured = groups("big ", 20);
    measured.extend(groups("small", 10));
    let wrap = TextWrapper::wrap(MeasuredTextInfo::Groups(measured), TextWrap::NoWrap);
    assert_eq!(wrap.lines.len(), 1);
    let line = &wrap.lines[0];
    assert_eq!(line.metrics.ascent, 16_000);
    assert_eq!(line.metrics.descent, -4_000);
    assert_eq!(line.metrics.line_gap, 2_000);
    // Merged metrics carry no width.
    assert_eq!(line.metrics.width, 0);
    for span in &line.spans {
        assert!(line.metrics.ascent >= span.metrics().ascent);
        assert!(line.metrics.descent <= span.metrics().descent);
        assert!(line.metrics.line_gap >= span.metrics().line_gap);
    }
}

#[test]
fn a_single_span_line_keeps_its_metrics() {
    let wrap = TextWrapper::wrap(MeasuredTextInfo::Groups(groups("word", 10)), TextWrap::NoWrap);
    assert_eq!(wrap.lines.len(), 1);
    assert_eq!(wrap.lines[0].metrics, measure("word", 10));
}

#[test]
fn single_line_wrap_stops_at_the_first_break() {
    let wrap = TextWrapper::wrap(
        MeasuredTextInfo::Groups(groups("This line should wrap", 12)),
        TextWrap::SingleLine { width: 80 * UNITS, truncate: true, alignment: Alignment::Left },
    );
    assert_eq!(wrap.lines.len(), 1);
    assert_eq!(texts(&wrap, 0), vec!["This", " ", "line"]);
}

#[test]
fn unwrapped_text_stays_on_one_line_without_trailing_space() {
    let wrap = TextWrapper::wrap(
        MeasuredTextInfo::Groups(groups("This line should not wrap  ", 12)),
        TextWrap::NoWrap,
    );
    assert_eq!(wrap.lines.len(), 1);
    assert_eq!(
        texts(&wrap, 0),
        vec!["This", " ", "line", " ", "should", " ", "not", " ", "wrap"]
    );
}

#[test]
fn only_whitespace_gives_no_line() {
    let wrap = TextWrapper::wrap(MeasuredTextInfo::Groups(groups("   ", 12)), TextWrap::NoWrap);
    assert_eq!(wrap.lines.len(), 0);
}

#[test]
fn empty_text_is_one_empty_line() {
    let metrics = measure("", 12);
    let wrap = TextWrapper::wrap(MeasuredTextInfo::<String>::NoText(metrics), multi_line(80));
    assert_eq!(wrap.lines.len(), 1);
    assert!(wrap.lines[0].spans.is_empty());
    assert_eq!(wrap.lines[0].metrics, metrics);
    assert_eq!(wrap.lines[0].alignment_offset, 0);
}

#[test]
fn forced_break_ends_a_line() {
    let mut measured = groups("one", 10);
    measured.push(SpanGroup::EndOfLine(measure("", 14)));
    measured.extend(groups("two", 10));
    let wrap = TextWrapper::wrap(MeasuredTextInfo::Groups(measured), multi_line(1000));
    assert_eq!(wrap.lines.len(), 2);
    assert_eq!(texts(&wrap, 0), vec!["one"]);
    assert_eq!(texts(&wrap, 1), vec!["two"]);
    // The break's metrics are taken into the line it ends.
    assert_eq!(wrap.lines[0].metrics.ascent, 11_200);
}

#[test]
fn forced_break_ends_single_line_wrapping() {
    let mut measured = groups("one", 10);
    measured.push(SpanGroup::EndOfLine(measure("", 10)));
    measured.extend(groups("two", 10));
    let wrap = TextWrapper::wrap(MeasuredTextInfo::Groups(measured), TextWrap::NoWrap);
    assert_eq!(wrap.lines.len(), 1);
    assert_eq!(texts(&wrap, 0), vec!["one"]);
}

#[test]
fn a_word_wider_than_the_line_keeps_a_line_of_its_own() {
    let wrap = TextWrapper::wrap(
        MeasuredTextInfo::Groups(groups("a extraordinarily b", 10)),
        multi_line(30),
    );
    assert_eq!(wrap.lines.len(), 3);
    assert_eq!(texts(&wrap, 0), vec!["a"]);
    assert_eq!(texts(&wrap, 1), vec!["extraordinarily"]);
    // The space after the long word moved down with what follows it.
    assert_eq!(texts(&wrap, 2), vec![" ", "b"]);
    assert_eq!(wrap.lines[1].spans[0].metrics().width, 90_000);
}

#[test]
fn overflow_within_the_tolerance_does_not_break() {
    // "ab" is 12 points at font size 10; one unit more than the width still fits.
    let fits = TextWrapper::wrap(
        MeasuredTextInfo::Groups(vec![
            SpanGroup::Spans(vec![span("a", 10)]),
            SpanGroup::Spans(vec![span("b", 10)]),
        ]),
        TextWrap::MultiLine {
            size: Size { width: 12_000 - 1, height: 0 },
            alignment: Alignment::Left,
        },
    );
    assert_eq!(fits.lines.len(), 1);
    let breaks = TextWrapper::wrap(
        MeasuredTextInfo::Groups(vec![
            SpanGroup::Spans(vec![span("a", 10)]),
            SpanGroup::Spans(vec![span("b", 10)]),
        ]),
        TextWrap::MultiLine {
            size: Size { width: 12_000 - 2, height: 0 },
            alignment: Alignment::Left,
        },
    );
    assert_eq!(breaks.lines.len(), 2);
}

#[test]
fn multi_line_wrap_keeps_every_word_in_order() {
    let words = ["alpha", "beta", "gamma", "delta", "epsilon", "zeta"];
    let measured: Vec<SpanGroup<String>> =
        words.iter().map(|w| SpanGroup::Spans(vec![span(w, 10)])).collect();
    let wrap = TextWrapper::wrap(MeasuredTextInfo::Groups(measured), multi_line(70));
    assert!(wrap.lines.len() > 1);
    let all: Vec<&str> = wrap
        .lines
        .iter()
        .flat_map(|l| l.spans.iter().map(|s| s.source().as_str()))
        .collect();
    assert_eq!(all, words.to_vec());
}

#[test]
fn multi_line_wrap_stays_within_the_width() {
    let wrap = TextWrapper::wrap(
        MeasuredTextInfo::Groups(groups("the quick brown fox jumps over the lazy dog", 10)),
        multi_line(60),
    );
    assert!(wrap.lines.len() > 1);
    for line in &wrap.lines {
        let width: i64 = line.spans.iter().map(|s| s.metrics().width).sum();
        assert!(width <= 60 * UNITS + 1);
    }
}

#[test]
fn text_wrap_options() {
    let multi = multi_line(80);
    assert!(multi.is_multiline());
    assert!(!multi.is_single_line());
    assert_eq!(multi.width(), Some(80_000));
    assert_eq!(multi.height(), Some(i64::MAX));
    assert!(!multi.truncate());
    assert_eq!(multi.alignment(), Some(Alignment::Left));

    let single = TextWrap::SingleLine { width: 5, truncate: true, alignment: Alignment::Right };
    assert!(!single.is_multiline());
    assert!(single.is_single_line());
    assert_eq!(single.width(), Some(5));
    assert_eq!(single.height(), None);
    assert!(single.truncate());
    assert_eq!(single.alignment(), Some(Alignment::Right));

    let none = TextWrap::NoWrap;
    assert!(none.is_single_line());
    assert_eq!(none.width(), None);
    assert_eq!(none.height(), None);
    assert!(!none.truncate());
    assert_eq!(none.alignment(), None);
}

#[test]
fn span_accessors() {
    let mut s = span("hi", 10);
    assert_eq!(s.location, 0);
    s.set_location(42);
    assert_eq!(s.location, 42);
    assert_eq!(s.source(), "hi");
    assert_eq!(s.metrics().width, 12_000);
}

#[test]
fn lines_are_aligned_within_the_width() {
    let aligned = |alignment: Alignment| {
        TextWrapper::wrap(
            MeasuredTextInfo::Groups(groups("This line should wrap", 12)),
            TextWrap::MultiLine { size: Size { width: 80 * UNITS, height: 0 }, alignment },
        )
    };
    let offsets = |text: &PreparedText<String>| -> Vec<i64> {
        text.lines.iter().map(|l| l.alignment_offset).collect()
    };
    // The lines are 64.8 and 79.2 points wide.
    assert_eq!(offsets(&aligned(Alignment::Left)), vec![0, 0]);
    assert_eq!(offsets(&aligned(Alignment::Right)), vec![15_200, 800]);
    assert_eq!(offsets(&aligned(Alignment::Center)), vec![7_600, 400]);
    let right = aligned(Alignment::Right);
    for line in &right.lines {
        let last = line.spans.last().unwrap();
        assert_eq!(line.alignment_offset + last.location + last.metrics().width, 80 * UNITS);
    }
}

#[test]
fn single_line_and_empty_text_are_aligned_too() {
    let single = TextWrapper::wrap(
        MeasuredTextInfo::Groups(groups("word", 10)),
        TextWrap::SingleLine { width: 100 * UNITS, truncate: false, alignment: Alignment::Center },
    );
    assert_eq!(single.lines[0].alignment_offset, (100_000 - 24_000) / 2);
    let empty = TextWrapper::wrap(
        MeasuredTextInfo::<String>::NoText(measure("", 10)),
        TextWrap::SingleLine { width: 100 * UNITS, truncate: false, alignment: Alignment::Right },
    );
    assert_eq!(empty.lines[0].alignment_offset, 100_000);
    let odd = TextWrapper::wrap(
        MeasuredTextInfo::Groups(vec![SpanGroup::Spans(vec![PreparedSpan::new(
            "x".to_string(),
            TextMetrics { width: 4, ascent: 1, descent: 0, line_gap: 0 },
        )])]),
        TextWrap::SingleLine { width: 7, truncate: false, alignment: Alignment::Center },
    );
    // Three units left over: one on the left, two on the right.
    assert_eq!(odd.lines[0].alignment_offset, 1);
}

#[test]
fn unwrapped_text_is_not_moved() {
    let wrap = TextWrapper::wrap(MeasuredTextInfo::Groups(groups("a b", 10)), TextWrap::NoWrap);
    assert_eq!(wrap.lines[0].alignment_offset, 0);
}

#[test]
fn whitespace_ending_lines_is_the_only_thing_dropped() {
    let wrap = TextWrapper::wrap(
        MeasuredTextInfo::Groups(groups("the quick brown fox jumps over the lazy dog", 10)),
        multi_line(60),
    );
    let all: Vec<&str> = wrap
        .lines
        .iter()
        .flat_map(|l| l.spans.iter().map(|s| s.source().as_str()))
        .collect();
    let words: Vec<&str> = all.iter().copied().filter(|w| *w != " ").collect();
    assert_eq!(words, "the quick brown fox jumps over the lazy dog".split(' ').collect::<Vec<_>>());
    // Eight spaces in the text; some of those that ended a line are gone.
    assert!(all.len() - words.len() < 8);
}

#[test]
fn text_height() {
    assert_eq!(measure("x", 10).height(), 10_000);
}

fn words(text: &str, font_size: i64) -> Vec<SpanGroup<String>> {
    text.split(' ').map(|w| SpanGroup::Spans(vec![span(w, font_size)])).collect()
}

#[test]
fn multi_line_wrap_of_words_is_greedy() {
    let wrap = TextWrapper::wrap(
        MeasuredTextInfo::Groups(words("aa bbbb c ddddddddddddddd ee f gggg", 10)),
        multi_line(40),
    );
    let limit = 40 * UNITS + 1;
    let width = |l: &gooey::text::PreparedLine<String>| -> i64 {
        l.spans.iter().map(|s| s.metrics().width).sum()
    };
    assert_eq!(texts(&wrap, 0), vec!["aa", "bbbb"]);
    assert_eq!(texts(&wrap, 1), vec!["c"]);
    assert_eq!(texts(&wrap, 2), vec!["ddddddddddddddd"]);
    assert_eq!(texts(&wrap, 3), vec!["ee", "f"]);
    assert_eq!(texts(&wrap, 4), vec!["gggg"]);
    for (i, line) in wrap.lines.iter().enumerate() {
        assert!(!line.spans.is_empty());
        assert!(width(line) <= limit || line.spans.len() == 1);
        if let Some(next) = wrap.lines.get(i + 1) {
            assert!(width(line) + next.spans[0].metrics().width > limit);
        }
    }
}

#[test]
fn single_line_wrap_keeps_the_words_that_fit() {
    let wrap = TextWrapper::wrap(
        MeasuredTextInfo::Groups(words("aa bbbb c dd", 10)),
        TextWrap::SingleLine { width: 42 * UNITS, truncate: false, alignment: Alignment::Left },
    );
    assert_eq!(wrap.lines.len(), 1);
    assert_eq!(texts(&wrap, 0), vec!["aa", "bbbb", "c"]);
    let too_wide = TextWrapper::wrap(
        MeasuredTextInfo::Groups(words("eeeeeeeeee f", 10)),
        TextWrap::SingleLine { width: 42 * UNITS, truncate: false, alignment: Alignment::Left },
    );
    assert_eq!(texts(&too_wide, 0), vec!["eeeeeeeeee"]);
}
