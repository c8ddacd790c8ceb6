//! A streaming line-breaking engine for mixed Latin, CJK and numeric text.
//!
//! Given a source string and a target visual width in monospaced cells, the
//! engine produces a sequence of line descriptors, each recording the byte
//! range that renders on the line and the byte offset at which the next line
//! begins. Text is first tokenised into typed words with pre-computed widths
//! and provisional break offsets, and the words are then assembled into lines
//! under typographic rules for CJK/Latin mixing, bracket and quotation
//! pairing, hyphenation and mandatory breaks.

use vstd::prelude::*;

mod classify;
mod encoding;
mod word;
mod line;
mod laws;

pub use classify::WordType;
pub use classify::class_of;
pub use classify::char_width;
pub use classify::is_latin;
pub use classify::is_cjk;
pub use classify::is_open_punctuation;
pub use classify::is_close_punctuation;
pub use classify::is_quotation;
pub use classify::get_char_width;
pub use classify::spec_is_latin;
pub use classify::spec_is_cjk;
pub use classify::spec_is_digit;
pub use classify::spec_is_open_punctuation;
pub use classify::spec_is_close_punctuation;
pub use classify::spec_is_quotation;
pub use encoding::char_bytes;
pub use encoding::byte_index;
pub use encoding::is_boundary;
pub use encoding::char_utf8_len;
pub use encoding::chars_of;
pub use word::WordPosition;
pub use word::WordInfo;
pub use word::Word;
pub use word::WordModel;
pub use word::ScanState;
pub use word::scan_word;
pub use word::scan_of;
pub use word::scan_real;
pub use word::next_info;
pub use word::next_model;
pub use word::word_wf;
pub use word::merge_continues;
pub use word::sat_add;
pub use word::sat_add_signed;
pub use word::lemma_next_props;
pub use line::LinePosition;
pub use line::LineInfo;
pub use line::Line;
pub use line::LineModel;
pub use line::LineSt;
pub use line::LineOut;
pub use line::line_loop;
pub use line::line_next_spec;
pub use line::line_model_after;
pub use line::line_model_wf;
pub use line::prev_brk_of;
pub use line::rendered_to;
pub use line::ext_brk;
pub use line::scan_break_all;
pub use line::is_break_all;
pub use line::width_underflow;
pub use line::wm_init;
pub use line::rewind_end;
pub use line::sat_sub;
pub use line::is_tail_class;
pub use line::is_content_class;
pub use line::boundary_char_idx;
pub use line::newline_free_between;
pub use line::nl_free;
pub use laws::covering_run;
pub use laws::spans_concat;
pub use laws::lemma_coverage;
pub use laws::lemma_lines_adjacent;
pub use encoding::lemma_boundary_to_char_boundary;

verus! {

/// The facade of the engine: wires a string and a maximum width into a line
/// stream with long-break splitting switched on, and yields line descriptors
/// one per call to `next`.
pub struct TextFlow {
    max_width: usize,
    line_height: usize,
    line_spacing: usize,
    word_spacing: usize,
    tab_width: usize,
    lines: line::Line,
}

impl View for TextFlow {
    type V = line::LineModel;

    closed spec fn view(&self) -> line::LineModel {
        self.lines@
    }
}

impl TextFlow {
    /// Validity of the flow's state.
    pub closed spec fn inv(&self) -> bool {
        self.lines.inv()
    }

    /// A flow over `text` that breaks lines at `max_width` cells, splitting
    /// an over-wide leading word rather than emitting an empty line.
    pub fn new(text: &str, max_width: usize) -> (r: TextFlow)
        ensures
            r.inv(),
            r@ == (line::LineModel {
                chars: text@,
                prev: None,
                max_width: max_width as int,
                tab: 0,
                long_break: true,
                flags: 0,
            }),
    {
        let lines = line::Line::new(text, max_width, 0).with_long_break(true);
        TextFlow {
            max_width,
            line_height: 0,
            line_spacing: 0,
            word_spacing: 0,
            tab_width: 0,
            lines,
        }
    }

    /// The next line descriptor, `None` when the whole text has been covered
    /// (a flow built by `new` has long-break splitting on, so the
    /// width-underflow case never holds of it); `line_next_spec` of the
    /// stream's state, with each line
    /// starting where the previous one broke, advancing, staying inside the
    /// text, every offset on a code-point boundary, and no newline in the
    /// rendered range.
    pub fn next(&mut self) -> (r: Option<LineInfo>)
        requires
            old(self).inv(),
        ensures
            final(self).inv(),
            r == line::line_next_spec(old(self)@),
            final(self)@ == line::line_model_after(old(self)@),
            r is None <==> (line::prev_brk_of(old(self)@) == encoding::byte_index(
                old(self)@.chars,
                old(self)@.chars.len() as int,
            ) || line::width_underflow(old(self)@)),
            r matches Some(li) ==> ({
                let s = line::prev_brk_of(old(self)@);
                let total = encoding::byte_index(old(self)@.chars, old(self)@.chars.len() as int);
                &&& li.position.start == s
                &&& s <= li.position.end <= total
                &&& s < li.position.brk <= total
                &&& s <= line::rendered_to(li)
                &&& encoding::is_boundary(old(self)@.chars, li.position.start as int)
                &&& encoding::is_boundary(old(self)@.chars, li.position.end as int)
                &&& encoding::is_boundary(old(self)@.chars, li.position.brk as int)
                &&& encoding::is_boundary(old(self)@.chars, line::rendered_to(li))
                &&& line::newline_free_between(
                    old(self)@.chars,
                    li.position.start as int,
                    line::rendered_to(li),
                )
            }),
    {
        self.lines.next()
    }
}

} // verus!
