use textflow::Line;
use textflow::TextFlow;
use textflow::get_char_width;
use textflow::is_close_punctuation;
use textflow::is_open_punctuation;
use textflow::is_cjk;
use textflow::is_latin;
use textflow::is_quotation;

fn collect_lines(text: &str, max_width: usize) -> Vec<(usize, usize, usize)> {
    let mut flow = TextFlow::new(text, max_width);
    let mut out = Vec::new();
    while let Some(line) = flow.next() {
        out.push((line.position.start, line.position.end, line.position.brk));
    }
    out
}

fn cell_width(s: &str) -> usize {
    s.chars().map(|c| get_char_width(c, 4)).sum()
}

// Coverage: concatenating text[start..brk] over all emitted lines
// reproduces the input exactly.
#[test]
fn coverage_reproduces_input() {
    for (text, w) in [
        ("Hello, world!", 10),
        ("The quick brown fox jumps over a lazy dog.", 15),
        ("你好中国", 2),
        ("为了提供更好的服务和服务。\n请您在使用前充分阅读《TextFlowwwwwwwwwwwwwwwwww 使用隐私 Policy》", 25),
        ("b  \n\n     a", 2),
        ("an    apple         \"is\" a fruit", 1),
        ("this is a \"text word\" test", 15),
    ] {
        let mut joined = String::new();
        for (start, _, brk) in collect_lines(text, w) {
            joined.push_str(&text[start..brk]);
        }
        assert_eq!(joined, text, "coverage failed for {:?} at width {}", text, w);
    }
}

// Monotonicity: each line starts where the previous one broke, starts never
// pass the break, and the break always advances.
#[test]
fn monotonicity_of_offsets() {
    for (text, w) in [
        ("Hello, world!", 10),
        ("八百标兵奔北坡炮兵并排北边跑666中英文测试。The quick brown fox jumps over a lazy dog. abcdefghijklmnopq rstuvwxyz", 14),
        ("a book named 《<《「Wow》>」", 27),
    ] {
        let lines = collect_lines(text, w);
        assert!(!lines.is_empty());
        assert_eq!(lines[0].0, 0);
        let mut prev_brk = 0;
        for (start, end, brk) in &lines {
            assert_eq!(*start, prev_brk);
            assert!(start <= end);
            assert!(start < brk);
            prev_brk = *brk;
        }
        assert_eq!(prev_brk, text.len());
    }
}

// Boundary safety: every offset a line descriptor carries lies on a UTF-8
// code-point boundary of the input.
#[test]
fn offsets_are_utf8_boundaries() {
    for (text, w) in [
        ("你好中国", 2),
        ("实时操作系统 Nuttx》。", 20),
        ("为了提供更好的服务和服务。\n请您在使用前充分阅读《TextFlowwwwwwwwwwwwwwwwww 使用隐私 Policy》", 25),
    ] {
        for (start, end, brk) in collect_lines(text, w) {
            assert!(text.is_char_boundary(start));
            assert!(text.is_char_boundary(end));
            assert!(text.is_char_boundary(brk));
        }
    }
}

// Width bound: the rendered width of each line stays within the maximum
// when no single word exceeds it.
#[test]
fn width_bound_holds_without_overwide_words() {
    for (text, w) in [
        ("The quick brown fox jumps over a lazy dog.", 15),
        ("Hello, world!", 10),
        ("实时操作系统 Nuttx》。", 20),
    ] {
        let mut flow = TextFlow::new(text, w);
        while let Some(line) = flow.next() {
            let s = line.slices(text);
            assert!(cell_width(s) <= w, "line {:?} wider than {}", s, w);
        }
    }
}

// Width bound, over-wide word: the prefix that fits is emitted.
#[test]
fn width_bound_overwide_word_splits_to_fitting_prefix() {
    let text = "abcdefghijklmnopq";
    let mut flow = TextFlow::new(text, 5);
    let line = flow.next().unwrap();
    assert_eq!(line.slices(text), "abcde");
}

// Pair cohesion: for pairs whose combined width fits on one line, no
// rendered line ends with an unclosed opening mark.
#[test]
fn pair_cohesion_openers_do_not_dangle() {
    for (text, w) in [
        ("this is a <text> test", 15),
        ("a book named 《<《「Wow》>」", 27),
        ("this is aaaa \"text word\" test", 15),
    ] {
        let mut flow = TextFlow::new(text, w);
        while let Some(line) = flow.next() {
            let s = line.slices(text);
            if let Some(last) = s.chars().last() {
                assert!(
                    !is_open_punctuation(last),
                    "line {:?} ends with an opener",
                    s
                );
            }
        }
    }
}

// Newline honouring: the newline byte lies between the rendered end and the
// break, and never appears in a rendered slice.
#[test]
fn newlines_force_boundaries_and_are_not_rendered() {
    let text = "abc\ndef\n\ngh";
    let mut flow = TextFlow::new(text, 10);
    let mut covered_newlines = 0;
    while let Some(line) = flow.next() {
        let s = line.slices(text);
        assert!(!s.contains('\n'), "newline rendered in {:?}", s);
        let gap = &text[line.position.end.min(line.position.brk)..line.position.brk];
        covered_newlines += gap.matches('\n').count();
    }
    assert_eq!(covered_newlines, text.matches('\n').count());
}

// Idempotence of re-feed: running the engine on a rendered line with the
// same width yields that line back unsplit.
#[test]
fn refeed_of_rendered_line_is_identity() {
    let text = "The quick brown fox jumps over a lazy dog.";
    let mut flow = TextFlow::new(text, 15);
    while let Some(line) = flow.next() {
        let s = line.slices(text);
        let mut again = TextFlow::new(s, 15);
        let one = again.next().unwrap();
        assert_eq!(one.slices(s), s);
        assert_eq!(again.next().map(|l| l.slices(s)), None);
    }
}

// Character-level wrapping: every provisional break is honoured regardless
// of word grouping.
#[test]
fn break_all_wraps_at_character_level() {
    let text = "f abcdefghijklmnopq";
    let mut flow = Line::new(text, 10, 4).with_long_break(true).with_flags(1);
    let line = flow.next().unwrap();
    let hi = line.position.brk.min(line.position.end);
    assert_eq!(&text[line.position.start..hi], "f abcdefghi");
    let line = flow.next().unwrap();
    let hi = line.position.brk.min(line.position.end);
    assert_eq!(&text[line.position.start..hi], "jklmnopq");
    assert!(flow.next().is_none());
}

// An empty input yields an empty sequence.
#[test]
fn empty_input_yields_no_lines() {
    let mut flow = TextFlow::new("", 10);
    assert!(flow.next().is_none());
}

// The width-underflow degenerate case: a zero width with long-break
// splitting off can make no progress, so the stream is done immediately.
#[test]
fn zero_width_without_long_break_is_done() {
    let mut flow = Line::new("ab cd", 0, 4);
    assert!(flow.next().is_none());
    assert!(flow.next().is_none());
}

// With long-break splitting on, a zero width still advances and covers the
// input, one piece at a time.
#[test]
fn zero_width_with_long_break_makes_progress() {
    let text = "ab cd";
    let mut flow = Line::new(text, 0, 4).with_long_break(true);
    let mut prev = 0;
    let mut rounds = 0;
    while let Some(line) = flow.next() {
        assert!(line.position.brk > prev);
        prev = line.position.brk;
        rounds += 1;
        assert!(rounds <= text.len());
    }
    assert_eq!(prev, text.len());
}

// The budget subtracts the charged width saturating at zero: a tab wider
// than what remains empties the budget.
#[test]
fn budget_saturates_at_zero() {
    let mut flow = textflow::Word::new("\t", 3, 5, 0);
    let word = flow.next().unwrap();
    assert_eq!(word.real_width, 5);
    assert_eq!(flow.get_remaining_width(), 0);
}

// Classifier widths: ASCII-ish glyphs take one cell, East-Asian wide glyphs
// two, controls none.
#[test]
fn classifier_widths_are_exact() {
    assert_eq!(get_char_width('a', 4), 1);
    assert_eq!(get_char_width('0', 4), 1);
    assert_eq!(get_char_width('-', 4), 1);
    assert_eq!(get_char_width(' ', 4), 1);
    assert_eq!(get_char_width('你', 4), 2);
    assert_eq!(get_char_width('（', 4), 2);
    assert_eq!(get_char_width('(', 4), 1);
    assert_eq!(get_char_width('。', 4), 2);
    assert_eq!(get_char_width('"', 4), 1);
    assert_eq!(get_char_width('❝', 4), 2);
    assert_eq!(get_char_width('\t', 4), 4);
    assert_eq!(get_char_width('\n', 4), 0);
    assert_eq!(get_char_width('\r', 4), 0);
    assert_eq!(get_char_width('\u{1F600}', 4), 0);
}

// Classifier tables: the closed punctuation sets hold exactly their listed
// members among a sample.
#[test]
fn classifier_tables_sample() {
    assert!(is_latin('a') && is_latin('Z') && !is_latin('0'));
    assert!(is_cjk('你') && !is_cjk('a'));
    assert!(is_open_punctuation('《') && is_open_punctuation('<'));
    assert!(is_close_punctuation('》') && is_close_punctuation('，') && is_close_punctuation('／') == false);
    assert!(is_close_punctuation('—') && is_close_punctuation('～') && is_close_punctuation('·'));
    assert!(is_quotation('"') && is_quotation('\'') && is_quotation('❛') && !is_quotation('a'));
    assert!(is_quotation('\u{2E00}') && is_quotation('\u{2E02}') && is_quotation('\u{2E05}'));
    assert!(is_quotation('\u{2E09}') && is_quotation('\u{2E0A}') && is_quotation('\u{2E0B}'));
    assert!(!is_quotation('\u{2E0C}'));
}
