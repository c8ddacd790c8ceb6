use vstd::prelude::*;
use vstd::string::StringSliceAdditionalSpecFns;
use crate::classify::WordType;
use crate::classify::class_of;
use crate::classify::char_width;
use crate::classify::get_char_width;
use crate::encoding::byte_index;
use crate::encoding::char_bytes;
use crate::encoding::char_utf8_len;
use crate::encoding::chars_of;
use crate::encoding::is_boundary;
use crate::encoding::lemma_byte_index_step;
use crate::encoding::lemma_byte_index_mono;
use crate::encoding::lemma_byte_index_zero;
use crate::encoding::lemma_byte_index_suffix;
use crate::encoding::lemma_char_bytes_bounds;
use crate::word::Word;
use crate::word::WordInfo;
use crate::word::WordModel;
use crate::word::next_info;
use crate::word::next_model;
use crate::word::word_wf;
use crate::word::sat_add;
use crate::word::lemma_next_props;

verus! {

/// Byte range of one line: `[start, end)` is the content the engine accepted,
/// `brk` is the offset at which the next line begins. The rendered substring
/// is `[start, min(end, brk))`; a trailing newline or an elided trailing
/// space lies in the gap between the rendered range and `brk`.
#[derive(Debug, Clone, Copy, PartialEq, Eq, Structural)]
pub struct LinePosition {
    pub start: usize,
    pub end: usize,
    pub brk: usize,
}

/// One line descriptor: its byte range and the cell widths accepted into it.
/// `line_height` and `line_spacing` are carried through for renderers and do
/// not affect breaking.
#[derive(Debug, Clone, Copy)]
pub struct LineInfo {
    pub position: LinePosition,
    pub line_height: usize,
    pub line_spacing: usize,
    pub real_width: usize,
    pub ideal_width: usize,
}

/// The byte offset where the rendered part of the line stops.
pub open spec fn rendered_to(li: LineInfo) -> int {
    if li.position.brk < li.position.end {
        li.position.brk as int
    } else {
        li.position.end as int
    }
}

impl LineInfo {
    /// The rendered substring of this line: `string[start .. min(end, brk)]`.
    /// The offsets must lie on code-point boundaries of `string`, which holds
    /// for every descriptor the engine emitted for it.
    pub fn slices<'a>(&self, string: &'a str) -> (r: &'a str)
        requires
            self.position.start as int <= rendered_to(*self) <= string.spec_bytes().len(),
            vstd::utf8::is_char_boundary(string.spec_bytes(), self.position.start as int),
            vstd::utf8::is_char_boundary(string.spec_bytes(), rendered_to(*self)),
        ensures
            r.spec_bytes() == string.spec_bytes().subrange(
                self.position.start as int,
                rendered_to(*self),
            ),
    {
        let a = self.position.start;
        let m = if self.position.brk < self.position.end {
            self.position.brk
        } else {
            self.position.end
        };
        proof {
            vstd::utf8::encode_utf8_valid_utf8(string@);
            crate::encoding::lemma_boundary_shift(string.spec_bytes(), a as int, m as int);
        }
        let (_, tail) = string.split_at(a);
        let (head, _) = tail.split_at(m - a);
        proof {
            assert(head.spec_bytes() =~= string.spec_bytes().subrange(a as int, m as int));
        }
        head
    }
}

/// Initial state of the word stream a line reads: positioned at the start of
/// the line's suffix of the text, with the full width budget.
pub open spec fn wm_init(sub: Seq<char>, max_width: int, tab: int) -> WordModel {
    WordModel {
        chars: sub,
        idx: 0,
        prev_end: 0,
        prev_brk: usize::MAX as int,
        remaining: max_width,
        tab: tab,
        letter_space: 0,
    }
}

/// State carried between iterations of the line-assembly loop, besides the
/// current word: the word stream already advanced past the current word, the
/// line-leading flag, the unresolved opener with the word before it and the
/// count of content words since it opened, the word consumed before the
/// current one, and the accumulated widths.
pub ghost struct LineSt {
    pub wm: WordModel,
    pub leading: bool,
    pub unres: Option<WordInfo>,
    pub unres_prev: Option<WordInfo>,
    pub prevw: Option<WordInfo>,
    pub count: int,
    pub realw: int,
    pub idealw: int,
}

/// What the loop decided: the content end and break offset (relative to the
/// line's suffix), the widths, and the first word not folded into the line,
/// which the trailing-space rule may still inspect.
pub ghost struct LineOut {
    pub end: int,
    pub brk: int,
    pub realw: int,
    pub idealw: int,
    pub nextw: Option<WordInfo>,
}

/// `a - b` clamped to zero.
pub open spec fn sat_sub(a: int, b: int) -> int {
    if a - b < 0 {
        0
    } else {
        a - b
    }
}

/// A break rewound to `target` excludes a space word that ends exactly
/// there from the rendered range: the blank moves into the line's gap.
pub open spec fn rewind_end(target: int, tprev: Option<WordInfo>) -> int {
    match tprev {
        Some(p) => if p.word_type == WordType::SPACE && p.position.end == target {
            p.position.start as int
        } else {
            target
        },
        None => target,
    }
}

/// Whether a word belongs to the tail classes that may be absorbed at the
/// end of a line.
pub open spec fn is_tail_class(wt: WordType) -> bool {
    wt == WordType::SPACE || wt == WordType::CLOSE_PUNCTUATION || wt == WordType::QUOTATION
        || wt == WordType::HYPHEN
}

/// Whether a word is line content for the opener-pairing count.
pub open spec fn is_content_class(wt: WordType) -> bool {
    wt == WordType::CJK || wt == WordType::LATIN || wt == WordType::NUMBER
}

/// Whether a word opens a pairing: an opening bracket or a quotation mark.
pub open spec fn oq_word(wt: WordType) -> bool {
    wt == WordType::OPEN_PUNCTUATION || wt == WordType::QUOTATION
}

/// Whether the current word is recorded as the unresolved opener: the first
/// opener seen, or an opening bracket after content inside the previous pair.
pub open spec fn rec_p(word: WordInfo, st: LineSt) -> bool {
    oq_word(word.word_type) && (st.unres is None || (word.word_type == WordType::OPEN_PUNCTUATION
        && st.count > 0))
}

pub open spec fn unres1_of(word: WordInfo, st: LineSt) -> Option<WordInfo> {
    if rec_p(word, st) {
        Some(word)
    } else {
        st.unres
    }
}

pub open spec fn uprev1_of(word: WordInfo, st: LineSt) -> Option<WordInfo> {
    if rec_p(word, st) {
        st.prevw
    } else {
        st.unres_prev
    }
}

pub open spec fn count1_of(word: WordInfo, st: LineSt) -> int {
    if rec_p(word, st) {
        0
    } else {
        st.count
    }
}

/// A second quotation mark closes the pending pair.
pub open spec fn clear_p(word: WordInfo, st: LineSt) -> bool {
    oq_word(word.word_type) && !rec_p(word, st) && word.word_type == WordType::QUOTATION
        && unres1_of(word, st) is Some
}

pub open spec fn unres2_of(word: WordInfo, st: LineSt) -> Option<WordInfo> {
    if clear_p(word, st) {
        None
    } else {
        unres1_of(word, st)
    }
}

pub open spec fn uprev2_of(word: WordInfo, st: LineSt) -> Option<WordInfo> {
    if clear_p(word, st) {
        None
    } else {
        uprev1_of(word, st)
    }
}

pub open spec fn count2_of(word: WordInfo, st: LineSt) -> int {
    if clear_p(word, st) {
        0
    } else {
        count1_of(word, st)
    }
}

/// The long-break case: the line still has no content and the current word
/// already carries a provisional break.
pub open spec fn cond_lead(word: WordInfo, st: LineSt, long_break: bool) -> bool {
    st.leading && long_break && word.position.brk != usize::MAX && word.word_type
        != WordType::RETURN && word.word_type != WordType::NEWLINE
}

/// The opener look-ahead case: the current word opens a pairing and the word
/// after it overflows mid-word.
pub open spec fn chainable_p(word: WordInfo, st: LineSt) -> bool {
    &&& oq_word(word.word_type)
    &&& next_info(st.wm) matches Some(w2)
    &&& next_info(st.wm)->Some_0.position.brk != usize::MAX
    &&& next_info(st.wm)->Some_0.position.brk != next_info(st.wm)->Some_0.position.end
}

/// The rendered end of a line that stops right after `word`: a space word is
/// elided from the rendered range.
pub open spec fn end_at(word: WordInfo) -> int {
    if word.word_type == WordType::SPACE {
        word.position.start as int
    } else {
        word.position.end as int
    }
}

/// The loop state passed to the next iteration.
pub open spec fn step_st(word: WordInfo, st: LineSt, leading: bool, count: int) -> LineSt {
    LineSt {
        wm: next_model(st.wm),
        leading,
        unres: unres2_of(word, st),
        unres_prev: uprev2_of(word, st),
        prevw: Some(word),
        count,
        realw: sat_add(st.realw, word.real_width as int),
        idealw: sat_add(st.idealw, word.ideal_width as int),
    }
}

/// One full run of the line-assembly decision procedure, starting at the
/// current word `word`. Mirrors, case by case: the in-word split of an
/// over-wide leading word; the mandatory break at a newline or return; the
/// opener look-ahead that refuses to leave an opening mark dangling at the
/// end of a line, rewinding to the opener (or to the content before it);
/// absorbing a fitting tail-class word; and the plain break when the next
/// word overflows.
pub open spec fn line_loop(word: WordInfo, st: LineSt, long_break: bool) -> LineOut
    decreases st.wm.chars.len() - st.wm.idx,
    when word_wf(st.wm)
    via line_loop_decreases
{
    let real1 = sat_add(st.realw, word.real_width as int);
    let ideal1 = sat_add(st.idealw, word.ideal_width as int);
    let wn = next_info(st.wm);
    if cond_lead(word, st, long_break) {
        let e = if word.word_type == WordType::SPACE && word.position.brk >= word.position.end {
            word.position.start as int
        } else {
            word.position.end as int
        };
        LineOut { end: e, brk: word.position.brk as int, realw: real1, idealw: ideal1, nextw: wn }
    } else if word.word_type == WordType::NEWLINE || word.word_type == WordType::RETURN {
        LineOut {
            end: word.position.start as int,
            brk: word.position.end as int,
            realw: real1,
            idealw: ideal1,
            nextw: wn,
        }
    } else if chainable_p(word, st) {
        if st.leading {
            line_loop(
                wn->Some_0,
                LineSt {
                    wm: next_model(st.wm),
                    leading: st.leading,
                    unres: unres1_of(word, st),
                    unres_prev: uprev1_of(word, st),
                    prevw: Some(word),
                    count: count1_of(word, st),
                    realw: real1,
                    idealw: ideal1,
                },
                long_break,
            )
        } else if unres1_of(word, st) is Some && count1_of(word, st) == 0 {
            let t = unres1_of(word, st)->Some_0.position.start as int;
            LineOut {
                end: rewind_end(t, uprev1_of(word, st)),
                brk: t,
                realw: real1,
                idealw: ideal1,
                nextw: wn,
            }
        } else {
            let t = word.position.start as int;
            LineOut {
                end: rewind_end(t, st.prevw),
                brk: t,
                realw: sat_sub(real1, word.real_width as int),
                idealw: sat_sub(ideal1, word.ideal_width as int),
                nextw: wn,
            }
        }
    } else {
        match wn {
            None => {
                LineOut {
                    end: end_at(word),
                    brk: word.position.end as int,
                    realw: real1,
                    idealw: ideal1,
                    nextw: None,
                }
            },
            Some(w2) => {
                if w2.position.brk != usize::MAX {
                    let fits = w2.position.brk == w2.position.end;
                    if fits && is_content_class(w2.word_type) {
                        line_loop(
                            w2,
                            step_st(word, st, st.leading, count2_of(word, st)),
                            long_break,
                        )
                    } else if fits && is_tail_class(w2.word_type) {
                        if word.word_type == WordType::QUOTATION {
                            if unres2_of(word, st) is Some && word.position.start > 0 {
                                let t = word.position.start as int;
                                LineOut {
                                    end: rewind_end(t, st.prevw),
                                    brk: t,
                                    realw: real1,
                                    idealw: ideal1,
                                    nextw: wn,
                                }
                            } else {
                                LineOut {
                                    end: word.position.end as int,
                                    brk: word.position.end as int,
                                    realw: real1,
                                    idealw: ideal1,
                                    nextw: wn,
                                }
                            }
                        } else {
                            let e = if w2.word_type == WordType::SPACE {
                                word.position.end as int
                            } else {
                                w2.position.end as int
                            };
                            LineOut {
                                end: e,
                                brk: w2.position.brk as int,
                                realw: sat_add(real1, w2.real_width as int),
                                idealw: sat_add(ideal1, w2.ideal_width as int),
                                nextw: next_info(next_model(st.wm)),
                            }
                        }
                    } else if w2.word_type == WordType::RETURN || w2.word_type
                        == WordType::NEWLINE {
                        LineOut {
                            end: end_at(word),
                            brk: word.position.end + 1,
                            realw: real1,
                            idealw: ideal1,
                            nextw: wn,
                        }
                    } else if word.word_type != WordType::CLOSE_PUNCTUATION && word.word_type
                        != WordType::QUOTATION && (w2.word_type == WordType::CLOSE_PUNCTUATION
                        || w2.word_type == WordType::QUOTATION || w2.word_type
                        == WordType::HYPHEN) {
                        if st.leading {
                            LineOut {
                                end: w2.position.end as int,
                                brk: w2.position.brk as int,
                                realw: sat_add(real1, w2.real_width as int),
                                idealw: sat_add(ideal1, w2.ideal_width as int),
                                nextw: wn,
                            }
                        } else if unres2_of(word, st) is Some && count2_of(word, st) == 0 {
                            let t = unres2_of(word, st)->Some_0.position.start as int;
                            LineOut {
                                end: rewind_end(t, uprev2_of(word, st)),
                                brk: t,
                                realw: sat_sub(real1, word.real_width as int),
                                idealw: sat_sub(ideal1, word.ideal_width as int),
                                nextw: wn,
                            }
                        } else {
                            let t = word.position.start as int;
                            LineOut {
                                end: rewind_end(t, st.prevw),
                                brk: t,
                                realw: sat_sub(real1, word.real_width as int),
                                idealw: sat_sub(ideal1, word.ideal_width as int),
                                nextw: wn,
                            }
                        }
                    } else {
                        LineOut {
                            end: end_at(word),
                            brk: word.position.end as int,
                            realw: real1,
                            idealw: ideal1,
                            nextw: wn,
                        }
                    }
                } else {
                    let count3: int = if is_content_class(word.word_type) && unres2_of(word, st)
                        is Some {
                        count2_of(word, st) + 1
                    } else {
                        count2_of(word, st)
                    };
                    let leading1 = if unres2_of(word, st) is None || count3 > 0 {
                        false
                    } else {
                        st.leading
                    };
                    line_loop(w2, step_st(word, st, leading1, count3), long_break)
                }
            },
        }
    }
}

#[via_fn]
proof fn line_loop_decreases(word: WordInfo, st: LineSt, long_break: bool) {
    lemma_next_props(st.wm);
}

/// Unfolding of the decision procedure, one case at a time. Each lemma
/// states what the loop returns (or recurses into) under its case's
/// conditions.
pub proof fn lemma_ll_lead(word: WordInfo, st: LineSt, lb: bool)
    requires
        word_wf(st.wm),
        cond_lead(word, st, lb),
    ensures
        line_loop(word, st, lb) == (LineOut {
            end: if word.word_type == WordType::SPACE && word.position.brk >= word.position.end {
                word.position.start as int
            } else {
                word.position.end as int
            },
            brk: word.position.brk as int,
            realw: sat_add(st.realw, word.real_width as int),
            idealw: sat_add(st.idealw, word.ideal_width as int),
            nextw: next_info(st.wm),
        }),
{
}

pub proof fn lemma_ll_newline(word: WordInfo, st: LineSt, lb: bool)
    requires
        word_wf(st.wm),
        !cond_lead(word, st, lb),
        word.word_type == WordType::NEWLINE || word.word_type == WordType::RETURN,
    ensures
        line_loop(word, st, lb) == (LineOut {
            end: word.position.start as int,
            brk: word.position.end as int,
            realw: sat_add(st.realw, word.real_width as int),
            idealw: sat_add(st.idealw, word.ideal_width as int),
            nextw: next_info(st.wm),
        }),
{
}

pub proof fn lemma_ll_chain_lead(word: WordInfo, st: LineSt, lb: bool)
    requires
        word_wf(st.wm),
        !cond_lead(word, st, lb),
        word.word_type != WordType::NEWLINE && word.word_type != WordType::RETURN,
        chainable_p(word, st),
        st.leading,
    ensures
        line_loop(word, st, lb) == line_loop(
            next_info(st.wm)->Some_0,
            LineSt {
                wm: next_model(st.wm),
                leading: st.leading,
                unres: unres1_of(word, st),
                unres_prev: uprev1_of(word, st),
                prevw: Some(word),
                count: count1_of(word, st),
                realw: sat_add(st.realw, word.real_width as int),
                idealw: sat_add(st.idealw, word.ideal_width as int),
            },
            lb,
        ),
{
    lemma_next_props(st.wm);
    reveal_with_fuel(line_loop, 2);
}

pub proof fn lemma_ll_chain_rewind(word: WordInfo, st: LineSt, lb: bool)
    requires
        word_wf(st.wm),
        !cond_lead(word, st, lb),
        word.word_type != WordType::NEWLINE && word.word_type != WordType::RETURN,
        chainable_p(word, st),
        !st.leading,
    ensures
        line_loop(word, st, lb) == (if unres1_of(word, st) is Some && count1_of(word, st) == 0 {
            let t = unres1_of(word, st)->Some_0.position.start as int;
            LineOut {
                end: rewind_end(t, uprev1_of(word, st)),
                brk: t,
                realw: sat_add(st.realw, word.real_width as int),
                idealw: sat_add(st.idealw, word.ideal_width as int),
                nextw: next_info(st.wm),
            }
        } else {
            let t = word.position.start as int;
            LineOut {
                end: rewind_end(t, st.prevw),
                brk: t,
                realw: sat_sub(sat_add(st.realw, word.real_width as int), word.real_width as int),
                idealw: sat_sub(
                    sat_add(st.idealw, word.ideal_width as int),
                    word.ideal_width as int,
                ),
                nextw: next_info(st.wm),
            }
        }),
{
}

pub proof fn lemma_ll_none(word: WordInfo, st: LineSt, lb: bool)
    requires
        word_wf(st.wm),
        !cond_lead(word, st, lb),
        word.word_type != WordType::NEWLINE && word.word_type != WordType::RETURN,
        !chainable_p(word, st),
        next_info(st.wm) is None,
    ensures
        line_loop(word, st, lb) == (LineOut {
            end: end_at(word),
            brk: word.position.end as int,
            realw: sat_add(st.realw, word.real_width as int),
            idealw: sat_add(st.idealw, word.ideal_width as int),
            nextw: None,
        }),
{
}

pub proof fn lemma_ll_fits_content(word: WordInfo, st: LineSt, lb: bool)
    requires
        word_wf(st.wm),
        !cond_lead(word, st, lb),
        word.word_type != WordType::NEWLINE && word.word_type != WordType::RETURN,
        !chainable_p(word, st),
        next_info(st.wm) matches Some(w2),
        next_info(st.wm)->Some_0.position.brk != usize::MAX,
        next_info(st.wm)->Some_0.position.brk == next_info(st.wm)->Some_0.position.end,
        is_content_class(next_info(st.wm)->Some_0.word_type),
    ensures
        line_loop(word, st, lb) == line_loop(
            next_info(st.wm)->Some_0,
            step_st(word, st, st.leading, count2_of(word, st)),
            lb,
        ),
{
    lemma_next_props(st.wm);
    reveal_with_fuel(line_loop, 2);
}

pub proof fn lemma_ll_fits_tail(word: WordInfo, st: LineSt, lb: bool)
    requires
        word_wf(st.wm),
        !cond_lead(word, st, lb),
        word.word_type != WordType::NEWLINE && word.word_type != WordType::RETURN,
        !chainable_p(word, st),
        next_info(st.wm) matches Some(w2),
        next_info(st.wm)->Some_0.position.brk != usize::MAX,
        next_info(st.wm)->Some_0.position.brk == next_info(st.wm)->Some_0.position.end,
        !is_content_class(next_info(st.wm)->Some_0.word_type),
        is_tail_class(next_info(st.wm)->Some_0.word_type),
    ensures
        line_loop(word, st, lb) == ({
            let w2 = next_info(st.wm)->Some_0;
            let real1 = sat_add(st.realw, word.real_width as int);
            let ideal1 = sat_add(st.idealw, word.ideal_width as int);
            if word.word_type == WordType::QUOTATION {
                if unres2_of(word, st) is Some && word.position.start > 0 {
                    let t = word.position.start as int;
                    LineOut {
                        end: rewind_end(t, st.prevw),
                        brk: t,
                        realw: real1,
                        idealw: ideal1,
                        nextw: next_info(st.wm),
                    }
                } else {
                    LineOut {
                        end: word.position.end as int,
                        brk: word.position.end as int,
                        realw: real1,
                        idealw: ideal1,
                        nextw: next_info(st.wm),
                    }
                }
            } else {
                LineOut {
                    end: if w2.word_type == WordType::SPACE {
                        word.position.end as int
                    } else {
                        w2.position.end as int
                    },
                    brk: w2.position.brk as int,
                    realw: sat_add(real1, w2.real_width as int),
                    idealw: sat_add(ideal1, w2.ideal_width as int),
                    nextw: next_info(next_model(st.wm)),
                }
            }
        }),
{
}

pub proof fn lemma_ll_next_break(word: WordInfo, st: LineSt, lb: bool)
    requires
        word_wf(st.wm),
        !cond_lead(word, st, lb),
        word.word_type != WordType::NEWLINE && word.word_type != WordType::RETURN,
        !chainable_p(word, st),
        next_info(st.wm) matches Some(w2),
        next_info(st.wm)->Some_0.position.brk != usize::MAX,
        !(next_info(st.wm)->Some_0.position.brk == next_info(st.wm)->Some_0.position.end
            && (is_content_class(next_info(st.wm)->Some_0.word_type) || is_tail_class(
            next_info(st.wm)->Some_0.word_type,
        ))),
    ensures
        line_loop(word, st, lb) == ({
            let w2 = next_info(st.wm)->Some_0;
            let real1 = sat_add(st.realw, word.real_width as int);
            let ideal1 = sat_add(st.idealw, word.ideal_width as int);
            if w2.word_type == WordType::RETURN || w2.word_type == WordType::NEWLINE {
                LineOut {
                    end: end_at(word),
                    brk: word.position.end + 1,
                    realw: real1,
                    idealw: ideal1,
                    nextw: next_info(st.wm),
                }
            } else if word.word_type != WordType::CLOSE_PUNCTUATION && word.word_type
                != WordType::QUOTATION && (w2.word_type == WordType::CLOSE_PUNCTUATION
                || w2.word_type == WordType::QUOTATION || w2.word_type == WordType::HYPHEN) {
                if st.leading {
                    LineOut {
                        end: w2.position.end as int,
                        brk: w2.position.brk as int,
                        realw: sat_add(real1, w2.real_width as int),
                        idealw: sat_add(ideal1, w2.ideal_width as int),
                        nextw: next_info(st.wm),
                    }
                } else if unres2_of(word, st) is Some && count2_of(word, st) == 0 {
                    let t = unres2_of(word, st)->Some_0.position.start as int;
                    LineOut {
                        end: rewind_end(t, uprev2_of(word, st)),
                        brk: t,
                        realw: sat_sub(real1, word.real_width as int),
                        idealw: sat_sub(ideal1, word.ideal_width as int),
                        nextw: next_info(st.wm),
                    }
                } else {
                    let t = word.position.start as int;
                    LineOut {
                        end: rewind_end(t, st.prevw),
                        brk: t,
                        realw: sat_sub(real1, word.real_width as int),
                        idealw: sat_sub(ideal1, word.ideal_width as int),
                        nextw: next_info(st.wm),
                    }
                }
            } else {
                LineOut {
                    end: end_at(word),
                    brk: word.position.end as int,
                    realw: real1,
                    idealw: ideal1,
                    nextw: next_info(st.wm),
                }
            }
        }),
{
}

pub proof fn lemma_ll_step(word: WordInfo, st: LineSt, lb: bool)
    requires
        word_wf(st.wm),
        !cond_lead(word, st, lb),
        word.word_type != WordType::NEWLINE && word.word_type != WordType::RETURN,
        !chainable_p(word, st),
        next_info(st.wm) matches Some(w2),
        next_info(st.wm)->Some_0.position.brk == usize::MAX,
    ensures
        line_loop(word, st, lb) == ({
            let count3: int = if is_content_class(word.word_type) && unres2_of(word, st) is Some {
                count2_of(word, st) + 1
            } else {
                count2_of(word, st)
            };
            let leading1 = if unres2_of(word, st) is None || count3 > 0 {
                false
            } else {
                st.leading
            };
            line_loop(next_info(st.wm)->Some_0, step_st(word, st, leading1, count3), lb)
        }),
{
    lemma_next_props(st.wm);
    reveal_with_fuel(line_loop, 2);
}

/// The trailing-space rule: when the content end and the break coincide and
/// the word standing exactly at the break is a space run, the next line
/// starts after it; the blank stays inside this line's span, unrendered.
pub open spec fn ext_brk(o: LineOut) -> int {
    match o.nextw {
        Some(w) => if o.end == o.brk && w.word_type == WordType::SPACE && w.position.start as int
            == o.brk {
            o.brk + (w.position.end - w.position.start)
        } else {
            o.brk
        },
        None => o.brk,
    }
}

/// Character-level scan for the `break_all` mode: code points accumulate
/// until their width first exceeds the maximum (the crossing code point is
/// kept on the line), and a newline forces the boundary with the newline
/// byte left out of the rendered range.
pub ghost struct BaOut {
    pub end: int,
    pub brk: int,
    pub width: int,
}

pub open spec fn scan_break_all(sub: Seq<char>, tab: int, max_width: int, i: int, pos: int, cum: int) -> BaOut
    decreases sub.len() - i,
    when 0 <= i <= sub.len()
{
    if i >= sub.len() {
        BaOut { end: pos, brk: pos, width: cum }
    } else {
        let c = sub[i];
        if class_of(c) == WordType::NEWLINE {
            BaOut { end: pos, brk: pos + 1, width: cum }
        } else {
            let cum1 = sat_add(cum, char_width(c, tab as nat) as int);
            let pos1 = pos + char_bytes(c);
            if cum1 > max_width {
                BaOut { end: pos1, brk: pos1, width: cum1 }
            } else {
                scan_break_all(sub, tab, max_width, i + 1, pos1, cum1)
            }
        }
    }
}

/// Mathematical state of a line stream: the code points of the text, the
/// line emitted last, and the tunables.
pub ghost struct LineModel {
    pub chars: Seq<char>,
    pub prev: Option<LineInfo>,
    pub max_width: int,
    pub tab: int,
    pub long_break: bool,
    pub flags: int,
}

/// Where the next line starts: at the break of the line emitted last, at the
/// text's start before any.
pub open spec fn prev_brk_of(m: LineModel) -> int {
    match m.prev {
        None => 0,
        Some(li) => li.position.brk as int,
    }
}

/// The lowest flag bit selects the `break_all` mode.
pub open spec fn is_break_all(flags: int) -> bool {
    flags % 2 == 1
}

/// The width-underflow degenerate case: a zero width with long-break
/// splitting off can make no progress, so the stream is done at once.
pub open spec fn width_underflow(m: LineModel) -> bool {
    !is_break_all(m.flags) && m.max_width == 0 && !m.long_break
}

/// The code-point position whose byte index is the boundary `off`.
pub open spec fn boundary_char_idx(chars: Seq<char>, off: int) -> int {
    choose|i: int| 0 <= i <= chars.len() && byte_index(chars, i) == off
}

/// A boundary's code-point position is unique.
pub proof fn lemma_boundary_char_idx(chars: Seq<char>, off: int, i: int)
    requires
        0 <= i <= chars.len(),
        byte_index(chars, i) == off,
    ensures
        boundary_char_idx(chars, off) == i,
{
    let j = boundary_char_idx(chars, off);
    assert(0 <= j <= chars.len() && byte_index(chars, j) == off);
    if i < j {
        lemma_byte_index_mono(chars, i, j);
    } else if j < i {
        lemma_byte_index_mono(chars, j, i);
    }
}

/// Validity of a line-stream state.
pub open spec fn line_model_wf(m: LineModel) -> bool {
    &&& is_boundary(m.chars, prev_brk_of(m))
    &&& 0 <= prev_brk_of(m) <= byte_index(m.chars, m.chars.len() as int)
    &&& byte_index(m.chars, m.chars.len() as int) <= usize::MAX
    &&& 0 <= m.max_width <= usize::MAX
    &&& 0 <= m.tab <= usize::MAX
    &&& 0 <= m.flags <= u16::MAX
}

/// The line the stream yields next: `None` when the whole text has been
/// covered, or in the width-underflow degenerate case; otherwise the
/// decision procedure (or the character-level
/// scan in `break_all` mode) applied to the remaining suffix, with the
/// trailing-space rule applied, rebased to absolute byte offsets.
pub open spec fn line_next_spec(m: LineModel) -> Option<LineInfo> {
    let start = prev_brk_of(m);
    let k = boundary_char_idx(m.chars, start);
    let sub = m.chars.skip(k);
    if sub.len() == 0 {
        None
    } else if width_underflow(m) {
        None
    } else if is_break_all(m.flags) {
        let o = scan_break_all(sub, m.tab, m.max_width, 0, 0, 0);
        Some(
            LineInfo {
                position: LinePosition {
                    start: start as usize,
                    end: (start + o.end) as usize,
                    brk: (start + o.brk) as usize,
                },
                line_height: 0,
                line_spacing: 0,
                real_width: o.width as usize,
                ideal_width: o.width as usize,
            },
        )
    } else {
        let wm0 = wm_init(sub, m.max_width, m.tab);
        match next_info(wm0) {
            None => None,
            Some(w1) => {
                let o = line_loop(
                    w1,
                    LineSt {
                        wm: next_model(wm0),
                        leading: true,
                        unres: None,
                        unres_prev: None,
                        prevw: None,
                        count: 0,
                        realw: 0,
                        idealw: 0,
                    },
                    m.long_break,
                );
                Some(
                    LineInfo {
                        position: LinePosition {
                            start: start as usize,
                            end: (start + o.end) as usize,
                            brk: (start + ext_brk(o)) as usize,
                        },
                        line_height: 0,
                        line_spacing: 0,
                        real_width: o.realw as usize,
                        ideal_width: o.idealw as usize,
                    },
                )
            },
        }
    }
}

/// The stream state after yielding a line.
pub open spec fn line_model_after(m: LineModel) -> LineModel {
    match line_next_spec(m) {
        None => m,
        Some(li) => LineModel { prev: Some(li), ..m },
    }
}

/// Position facts every word of a valid stream satisfies, relative to the
/// line's suffix of the text.
pub open spec fn word_props(w: WordInfo, sub: Seq<char>) -> bool {
    let total = byte_index(sub, sub.len() as int);
    &&& w.position.start < w.position.end <= total
    &&& is_boundary(sub, w.position.start as int)
    &&& is_boundary(sub, w.position.end as int)
    &&& (w.position.brk == usize::MAX || (is_boundary(sub, w.position.brk as int) && w.position.brk
        <= w.position.end && (w.position.brk >= 1 || (w.word_type == WordType::NEWLINE
        && w.position.brk + 1 == w.position.end))))
}

/// The invariant the line-assembly loop maintains about the current word and
/// its carried state.
pub open spec fn loop_inv(cur: WordInfo, st: LineSt, sub: Seq<char>, tab: int) -> bool {
    let total = byte_index(sub, sub.len() as int);
    &&& word_wf(st.wm)
    &&& st.wm.chars == sub
    &&& st.wm.tab == tab
    &&& st.wm.letter_space == 0
    &&& st.wm.prev_end == cur.position.end
    &&& st.wm.prev_brk == cur.position.brk as int
    &&& word_props(cur, sub)
    &&& (!st.leading ==> cur.position.start >= 1)
    &&& (!st.leading && st.unres is Some && st.count == 0 ==> st.unres->Some_0.position.start >= 1)
    &&& (st.unres matches Some(u) ==> u.position.start < u.position.end <= total && is_boundary(
        sub,
        u.position.start as int,
    ) && u.position.end <= st.wm.prev_end)
    &&& (st.unres is None ==> st.unres_prev is None)
    &&& (st.unres matches Some(u) ==> st.unres_prev matches Some(p) ==> p.position.end
        == u.position.start && p.position.start < p.position.end && is_boundary(
        sub,
        p.position.start as int,
    ))
    &&& (st.prevw matches Some(p) ==> p.position.end == cur.position.start && p.position.start
        < p.position.end && is_boundary(sub, p.position.start as int))
    &&& 0 <= st.count <= st.wm.idx
    &&& 0 <= st.realw <= usize::MAX
    &&& 0 <= st.idealw <= usize::MAX
}

/// No newline code point stands among the first `k` of the suffix.
pub open spec fn nl_free(sub: Seq<char>, k: int) -> bool {
    forall|j: int| 0 <= j < k && j < sub.len() ==> class_of(#[trigger] sub[j]) != WordType::NEWLINE
}

/// Code points lying wholly inside the byte range `[a, b)` are not newlines.
pub open spec fn newline_free_between(chars: Seq<char>, a: int, b: int) -> bool {
    forall|j: int|
        0 <= j < chars.len() && a <= byte_index(chars, j) && byte_index(chars, j + 1) <= b
            ==> class_of(#[trigger] chars[j]) != WordType::NEWLINE
}

proof fn lemma_nl_witness(chars: Seq<char>, k0: int, nlk: int, a: int, b: int)
    requires
        0 <= k0 <= chars.len(),
        0 <= nlk <= chars.skip(k0).len(),
        nl_free(chars.skip(k0), nlk),
        a == byte_index(chars, k0),
        b <= a + byte_index(chars.skip(k0), nlk),
    ensures
        newline_free_between(chars, a, b),
{
    let sub = chars.skip(k0);
    assert forall|j: int|
        0 <= j < chars.len() && a <= byte_index(chars, j) && byte_index(chars, j + 1)
            <= b implies class_of(#[trigger] chars[j]) != WordType::NEWLINE by {
        if j < k0 {
            lemma_byte_index_mono(chars, j, k0);
        } else {
            let jr = j - k0;
            lemma_byte_index_suffix(chars, k0, jr);
            lemma_byte_index_suffix(chars, k0, jr + 1);
            if jr + 1 > nlk {
                lemma_byte_index_mono(sub, nlk, jr + 1);
            }
            assert(sub[jr] == chars[j]);
        }
    }
}

/// Position facts of a word's span alone.
pub open spec fn word_span_props(w: WordInfo, sub: Seq<char>) -> bool {
    &&& w.position.start < w.position.end <= byte_index(sub, sub.len() as int)
    &&& is_boundary(sub, w.position.start as int)
    &&& is_boundary(sub, w.position.end as int)
}

/// Structural facts about what the loop decided.
pub open spec fn out_props(o: LineOut, sub: Seq<char>) -> bool {
    let total = byte_index(sub, sub.len() as int);
    &&& 0 <= o.end <= total
    &&& 1 <= o.brk <= total
    &&& is_boundary(sub, o.end)
    &&& is_boundary(sub, o.brk)
    &&& 0 <= o.realw <= usize::MAX
    &&& 0 <= o.idealw <= usize::MAX
    &&& (o.nextw matches Some(w) ==> word_span_props(w, sub))
}

/// The code-point position whose byte index is `target`, found by walking
/// forward from a known position.
fn char_idx_at(chars: &Vec<char>, from_idx: usize, from_byte: usize, target: usize) -> (k: usize)
    requires
        from_idx <= chars@.len(),
        byte_index(chars@, from_idx as int) == from_byte,
        from_byte <= target,
        is_boundary(chars@, target as int),
        byte_index(chars@, chars@.len() as int) <= usize::MAX,
    ensures
        k <= chars@.len(),
        byte_index(chars@, k as int) == target,
{
    let ghost j = choose|j: int|
        0 <= j <= chars@.len() && byte_index(chars@, j) == target as int;
    let n = chars.len();
    let mut k = from_idx;
    let mut b = from_byte;
    while b < target
        invariant
            n == chars@.len(),
            from_idx <= k <= chars@.len(),
            byte_index(chars@, k as int) == b,
            b <= target,
            0 <= j <= chars@.len() && byte_index(chars@, j) == target as int,
        decreases target - b,
    {
        proof {
            if k as int >= j {
                lemma_byte_index_mono(chars@, j, k as int);
            }
            lemma_byte_index_step(chars@, k as int);
            lemma_byte_index_mono(chars@, k as int + 1, j);
            lemma_char_bytes_bounds(chars@[k as int]);
        }
        let c = chars[k];
        b = b + char_utf8_len(c);
        k = k + 1;
    }
    k
}

/// `rewind_end` computed on values.
fn rewind_end_exec(target: usize, tprev: &Option<WordInfo>) -> (r: usize)
    requires
        (tprev matches Some(p) ==> p.position.start <= p.position.end),
    ensures
        r as int == rewind_end(target as int, *tprev),
{
    match tprev {
        Some(p) => {
            if p.word_type == WordType::SPACE && p.position.end == target {
                p.position.start
            } else {
                target
            }
        },
        None => target,
    }
}

/// A line stream over a text. `new` fixes the text and the tunables; the
/// `with_` builders adjust them; each call to `next` yields the following
/// line descriptor.
pub struct Line {
    chars: Vec<char>,
    prev_char_idx: usize,
    line_info_prev: Option<LineInfo>,
    max_width: usize,
    tab_width: usize,
    long_break: bool,
    flags: u16,
}

impl View for Line {
    type V = LineModel;

    closed spec fn view(&self) -> LineModel {
        LineModel {
            chars: self.chars@,
            prev: self.line_info_prev,
            max_width: self.max_width as int,
            tab: self.tab_width as int,
            long_break: self.long_break,
            flags: self.flags as int,
        }
    }
}

impl Line {
    /// Validity of this stream's state: the model is valid and the cached
    /// code-point position agrees with the byte offset where the next line
    /// starts.
    pub closed spec fn inv(&self) -> bool {
        &&& line_model_wf(self@)
        &&& self.prev_char_idx <= self.chars@.len()
        &&& byte_index(self.chars@, self.prev_char_idx as int) == prev_brk_of(self@)
    }

    /// A line stream over `text` with the given maximum width and tab width.
    /// Long-break splitting and the mode flags start switched off.
    pub fn new(text: &str, max_width: usize, tab_width: usize) -> (r: Line)
        ensures
            r.inv(),
            r@ == (LineModel {
                chars: text@,
                prev: None,
                max_width: max_width as int,
                tab: tab_width as int,
                long_break: false,
                flags: 0,
            }),
    {
        let chars = chars_of(text);
        let total = text.as_bytes().len();
        proof {
            assert(text@.take(text@.len() as int) =~= text@);
            assert(total == byte_index(chars@, chars@.len() as int));
            lemma_byte_index_zero(chars@);
            lemma_byte_index_mono(chars@, 0, chars@.len() as int);
        }
        Line {
            chars,
            prev_char_idx: 0,
            line_info_prev: None,
            max_width,
            tab_width,
            long_break: false,
            flags: 0,
        }
    }

    /// The same stream with another maximum width.
    pub fn with_max_width(self, max_width: usize) -> (r: Line)
        ensures
            r@ == (LineModel { max_width: max_width as int, ..self@ }),
            self.inv() ==> r.inv(),
    {
        Line { max_width, ..self }
    }

    /// The same stream with another tab width.
    pub fn with_tab_width(self, tab_width: usize) -> (r: Line)
        ensures
            r@ == (LineModel { tab: tab_width as int, ..self@ }),
            self.inv() ==> r.inv(),
    {
        Line { tab_width, ..self }
    }

    /// The same stream with long-break splitting switched on or off.
    pub fn with_long_break(self, long_break: bool) -> (r: Line)
        ensures
            r@ == (LineModel { long_break, ..self@ }),
            self.inv() ==> r.inv(),
    {
        Line { long_break, ..self }
    }

    /// The same stream with the given mode flags; the lowest bit selects
    /// `break_all`.
    pub fn with_flags(self, flags: u16) -> (r: Line)
        ensures
            r@ == (LineModel { flags: flags as int, ..self@ }),
            self.inv() ==> r.inv(),
    {
        Line { flags, ..self }
    }

    /// The next line descriptor, `None` when the whole text has been covered
    /// or in the width-underflow degenerate case. The descriptor is
    /// `line_next_spec` of the stream's state;
    /// its offsets start where the previous line broke, stay inside the
    /// text, advance (`start < brk`), all lie on code-point boundaries, and
    /// the rendered range holds no newline.
    #[verifier::rlimit(100)]
    pub fn next(&mut self) -> (r: Option<LineInfo>)
        requires
            old(self).inv(),
        ensures
            final(self).inv(),
            r == line_next_spec(old(self)@),
            final(self)@ == line_model_after(old(self)@),
            r is None <==> (prev_brk_of(old(self)@) == byte_index(
                old(self)@.chars,
                old(self)@.chars.len() as int,
            ) || width_underflow(old(self)@)),
            r matches Some(li) ==> ({
                let s = prev_brk_of(old(self)@);
                let total = byte_index(old(self)@.chars, old(self)@.chars.len() as int);
                &&& li.position.start == s
                &&& s <= li.position.end <= total
                &&& s < li.position.brk <= total
                &&& s <= rendered_to(li)
                &&& is_boundary(old(self)@.chars, li.position.start as int)
                &&& is_boundary(old(self)@.chars, li.position.end as int)
                &&& is_boundary(old(self)@.chars, li.position.brk as int)
                &&& is_boundary(old(self)@.chars, rendered_to(li))
                &&& newline_free_between(old(self)@.chars, li.position.start as int, rendered_to(li))
            }),
    {
        let ghost m = self@;
        let k0 = self.prev_char_idx;
        let nchars = self.chars.len();
        let start = match &self.line_info_prev {
            None => 0,
            Some(li) => li.position.brk,
        };
        proof {
            assert(start as int == prev_brk_of(m));
            lemma_boundary_char_idx(m.chars, prev_brk_of(m), k0 as int);
            lemma_byte_index_mono(m.chars, k0 as int, m.chars.len() as int);
        }
        if k0 == nchars {
            proof {
                assert(m.chars.skip(k0 as int).len() == 0);
            }
            return None;
        }
        if self.flags % 2 != 1 && self.max_width == 0 && !self.long_break {
            return None;
        }
        let ghost subs = m.chars.skip(k0 as int);
        let ghost total_sub = byte_index(subs, subs.len() as int);
        let nsub = nchars - k0;
        proof {
            lemma_byte_index_suffix(m.chars, k0 as int, subs.len() as int);
            assert(total_sub == byte_index(m.chars, m.chars.len() as int) - start);
            lemma_byte_index_zero(subs);
            lemma_byte_index_step(subs, 0);
            lemma_byte_index_mono(subs, 1, subs.len() as int);
            lemma_char_bytes_bounds(subs[0]);
            assert(1 <= total_sub);
            crate::encoding::lemma_len_le_bytes(subs);
        }
        let max_width = self.max_width;
        let tab = self.tab_width;
        let lb = self.long_break;
        let e_rel: usize;
        let b_rel: usize;
        let rw: usize;
        let iw: usize;
        let ghost mut nlk: int = 0;
        if self.flags % 2 == 1 {
            let mut i: usize = 0;
            let mut pos: usize = 0;
            let mut cum: usize = 0;
            let mut e: usize = 0;
            let mut b: usize = 0;
            let mut cont = true;
            while cont
                invariant
                    subs == self.chars@.skip(k0 as int),
                    self.chars@ == m.chars,
                    nchars == self.chars@.len(),
                    k0 + nsub == nchars,
                    nsub == subs.len(),
                    total_sub == byte_index(subs, subs.len() as int),
                    total_sub <= usize::MAX,
                    1 <= total_sub,
                    i <= nsub,
                    pos == byte_index(subs, i as int),
                    cont ==> scan_break_all(
                        subs,
                        tab as int,
                        max_width as int,
                        i as int,
                        pos as int,
                        cum as int,
                    ) == scan_break_all(subs, tab as int, max_width as int, 0, 0, 0),
                    !cont ==> (BaOut { end: e as int, brk: b as int, width: cum as int })
                        == scan_break_all(subs, tab as int, max_width as int, 0, 0, 0),
                    !cont ==> e <= total_sub && 1 <= b <= total_sub && e <= b && is_boundary(
                        subs,
                        e as int,
                    ) && is_boundary(subs, b as int),
                    cont ==> nl_free(subs, i as int),
                    !cont ==> 0 <= nlk <= subs.len() && nl_free(subs, nlk) && (if e < b {
                        e as int
                    } else {
                        b as int
                    }) <= byte_index(subs, nlk),
                decreases nsub - i + (if cont {
                    1int
                } else {
                    0int
                }),
            {
                if i >= nsub {
                    e = pos;
                    b = pos;
                    cont = false;
                    proof {
                        lemma_byte_index_mono(subs, 1, i as int);
                        nlk = i as int;
                    }
                } else {
                    let c = self.chars[k0 + i];
                    let t = WordType::from(c);
                    proof {
                        assert(c == subs[i as int]);
                        lemma_byte_index_step(subs, i as int);
                        lemma_byte_index_mono(subs, i as int + 1, subs.len() as int);
                        lemma_char_bytes_bounds(subs[i as int]);
                    }
                    if t == WordType::NEWLINE {
                        e = pos;
                        b = pos + 1;
                        cont = false;
                        proof {
                            assert(char_bytes(subs[i as int]) == 1) by {
                                assert(subs[i as int] as u32 == 0x0A);
                                vstd::utf8::char_is_scalar(subs[i as int]);
                            }
                            assert(b as int == byte_index(subs, i as int + 1));
                            nlk = i as int;
                        }
                    } else {
                        let cw = get_char_width(c, tab);
                        cum = crate::word::sat_add_exec(cum, cw);
                        pos = pos + char_utf8_len(c);
                        i = i + 1;
                        if cum > max_width {
                            e = pos;
                            b = pos;
                            cont = false;
                            proof {
                                lemma_byte_index_mono(subs, 1, i as int);
                                nlk = i as int;
                            }
                        }
                    }
                }
            }
            e_rel = e;
            b_rel = b;
            rw = cum;
            iw = cum;
        } else {
            let mut lent: Vec<char> = Vec::new();
            core::mem::swap(&mut lent, &mut self.chars);
            let mut ws = Word::from_chars(lent, k0, max_width, tab, 0);
            let ghost wm0 = wm_init(subs, max_width as int, tab as int);
            proof {
                assert(ws@ == wm0);
                lemma_next_props(wm0);
            }
            let first = ws.next();
            let mut cur: WordInfo;
            match first {
                None => {
                    proof {
                        assert(false);
                    }
                    return None;
                },
                Some(w) => {
                    cur = w;
                },
            }
            let ghost w1 = cur;
            let ghost st0 = LineSt {
                wm: ws@,
                leading: true,
                unres: None,
                unres_prev: None,
                prevw: None,
                count: 0,
                realw: 0,
                idealw: 0,
            };
            let mut leading = true;
            let mut unres: Option<WordInfo> = None;
            let mut unres_prev: Option<WordInfo> = None;
            let mut prevw: Option<WordInfo> = None;
            let mut count: usize = 0;
            let mut realw: usize = 0;
            let mut idealw: usize = 0;
            let mut e: usize = 0;
            let mut b: usize = 0;
            let mut nextw: Option<WordInfo> = None;
            let ghost mut cur_from: int = 0;
            let mut cont = true;
            while cont
                invariant
                    ws.wf(),
                    ws.full_view() == m.chars,
                    subs == st0.wm.chars,
                    total_sub == byte_index(subs, subs.len() as int),
                    total_sub <= usize::MAX,
                    1 <= total_sub,
                    subs.len() <= total_sub,
                    word_wf(st0.wm),
                    cont ==> loop_inv(
                        cur,
                        LineSt {
                            wm: ws@,
                            leading,
                            unres,
                            unres_prev,
                            prevw,
                            count: count as int,
                            realw: realw as int,
                            idealw: idealw as int,
                        },
                        subs,
                        tab as int,
                    ),
                    cont ==> line_loop(
                        cur,
                        LineSt {
                            wm: ws@,
                            leading,
                            unres,
                            unres_prev,
                            prevw,
                            count: count as int,
                            realw: realw as int,
                            idealw: idealw as int,
                        },
                        lb,
                    ) == line_loop(w1, st0, lb),
                    !cont ==> (LineOut {
                        end: e as int,
                        brk: b as int,
                        realw: realw as int,
                        idealw: idealw as int,
                        nextw,
                    }) == line_loop(w1, st0, lb),
                    !cont ==> out_props(
                        LineOut {
                            end: e as int,
                            brk: b as int,
                            realw: realw as int,
                            idealw: idealw as int,
                            nextw,
                        },
                        subs,
                    ),
                    cont ==> 0 <= cur_from <= subs.len() && byte_index(subs, cur_from)
                        == cur.position.start as int && nl_free(subs, cur_from),
                    cont ==> (cur.word_type != WordType::NEWLINE ==> nl_free(subs, ws@.idx)),
                    !cont ==> 0 <= nlk <= subs.len() && nl_free(subs, nlk) && (if e < b {
                        e as int
                    } else {
                        b as int
                    }) <= byte_index(subs, nlk),
                decreases subs.len() - ws@.idx + (if cont {
                    1int
                } else {
                    0int
                }),
            {
                let ghost pst = LineSt {
                    wm: ws@,
                    leading,
                    unres,
                    unres_prev,
                    prevw,
                    count: count as int,
                    realw: realw as int,
                    idealw: idealw as int,
                };
                let word = cur;
                realw = crate::word::sat_add_exec(realw, word.real_width);
                idealw = crate::word::sat_add_exec(idealw, word.ideal_width);
                if leading && lb && word.position.brk != usize::MAX && word.word_type
                    != WordType::RETURN && word.word_type != WordType::NEWLINE {
                    if word.word_type == WordType::SPACE && word.position.brk
                        >= word.position.end {
                        e = word.position.start;
                    } else {
                        e = word.position.end;
                    }
                    b = word.position.brk;
                    proof {
                        lemma_next_props(ws@);
                    }
                    nextw = ws.next();
                    cont = false;
                    proof { lemma_ll_lead(word, pst, lb); nlk = pst.wm.idx; }
                } else if word.word_type == WordType::NEWLINE || word.word_type
                    == WordType::RETURN {
                    e = word.position.start;
                    b = word.position.end;
                    proof {
                        lemma_next_props(ws@);
                    }
                    nextw = ws.next();
                    cont = false;
                    proof { lemma_ll_newline(word, pst, lb); nlk = cur_from; }
                } else {
                    let is_oq = word.word_type == WordType::OPEN_PUNCTUATION || word.word_type
                        == WordType::QUOTATION;
                    let record = is_oq && (unres.is_none() || (word.word_type
                        == WordType::OPEN_PUNCTUATION && count > 0));
                    if record {
                        unres = Some(word);
                        unres_prev = prevw;
                        count = 0;
                    }
                    proof {
                        lemma_next_props(ws@);
                    }
                    let wn = ws.next();
                    let mut chain = false;
                    if is_oq {
                        if let Some(w2) = &wn {
                            if w2.position.brk != usize::MAX && w2.position.brk
                                != w2.position.end {
                                chain = true;
                            }
                        }
                    }
                    if chain {
                        let w2 = wn.unwrap();
                        if leading {
                            prevw = Some(word);
                            cur = w2;
                            proof { lemma_ll_chain_lead(word, pst, lb); cur_from = pst.wm.idx; assert(cur.word_type != WordType::NEWLINE ==> nl_free(subs, ws@.idx)); }
                        } else if unres.is_some() && count == 0 {
                            let u = unres.unwrap();
                            b = u.position.start;
                            e = rewind_end_exec(u.position.start, &unres_prev);
                            nextw = Some(w2);
                            cont = false;
                            proof { lemma_ll_chain_rewind(word, pst, lb); nlk = pst.wm.idx; }
                        } else {
                            b = word.position.start;
                            e = rewind_end_exec(word.position.start, &prevw);
                            realw = if realw >= word.real_width {
                                realw - word.real_width
                            } else {
                                0
                            };
                            idealw = if idealw >= word.ideal_width {
                                idealw - word.ideal_width
                            } else {
                                0
                            };
                            nextw = Some(w2);
                            cont = false;
                            proof { lemma_ll_chain_rewind(word, pst, lb); nlk = pst.wm.idx; }
                        }
                    } else {
                        let clear = is_oq && !record && word.word_type == WordType::QUOTATION
                            && unres.is_some();
                        if clear {
                            unres = None;
                            unres_prev = None;
                            count = 0;
                        }
                        match wn {
                            None => {
                                if word.word_type == WordType::SPACE {
                                    e = word.position.start;
                                } else {
                                    e = word.position.end;
                                }
                                b = word.position.end;
                                nextw = None;
                                cont = false;
                                proof { lemma_ll_none(word, pst, lb); nlk = pst.wm.idx; }
                            },
                            Some(w2) => {
                                if w2.position.brk != usize::MAX {
                                    let e0 = if word.word_type == WordType::SPACE {
                                        word.position.start
                                    } else {
                                        word.position.end
                                    };
                                    let fits = w2.position.brk == w2.position.end;
                                    if fits && (w2.word_type == WordType::CJK || w2.word_type
                                        == WordType::LATIN || w2.word_type == WordType::NUMBER) {
                                        prevw = Some(word);
                                        cur = w2;
                                        proof { lemma_ll_fits_content(word, pst, lb); cur_from = pst.wm.idx; assert(cur.word_type != WordType::NEWLINE ==> nl_free(subs, ws@.idx)); }
                                    } else if fits && (w2.word_type == WordType::SPACE
                                        || w2.word_type == WordType::CLOSE_PUNCTUATION
                                        || w2.word_type == WordType::QUOTATION || w2.word_type
                                        == WordType::HYPHEN) {
                                        if word.word_type == WordType::QUOTATION {
                                            if unres.is_some() && word.position.start > 0 {
                                                b = word.position.start;
                                                e = rewind_end_exec(word.position.start, &prevw);
                                            } else {
                                                e = word.position.end;
                                                b = word.position.end;
                                            }
                                            nextw = Some(w2);
                                            cont = false;
                                            proof { lemma_ll_fits_tail(word, pst, lb); nlk = pst.wm.idx; }
                                        } else {
                                            realw = crate::word::sat_add_exec(
                                                realw,
                                                w2.real_width,
                                            );
                                            idealw = crate::word::sat_add_exec(
                                                idealw,
                                                w2.ideal_width,
                                            );
                                            if w2.word_type == WordType::SPACE {
                                                e = word.position.end;
                                            } else {
                                                e = w2.position.end;
                                            }
                                            b = w2.position.brk;
                                            proof {
                                                lemma_next_props(ws@);
                                                nlk = ws@.idx;
                                            }
                                            nextw = ws.next();
                                            cont = false;
                                            proof {
                                                lemma_ll_fits_tail(word, pst, lb);
                                                assert forall|j: int| 0 <= j < nlk && j < subs.len() implies class_of(
                                                    #[trigger] subs[j],
                                                ) != WordType::NEWLINE by {
                                                    if j < pst.wm.idx {
                                                        assert(nl_free(subs, pst.wm.idx));
                                                    }
                                                }
                                                assert(nl_free(subs, nlk));
                                            }
                                        }
                                    } else if w2.word_type == WordType::RETURN || w2.word_type
                                        == WordType::NEWLINE {
                                        e = e0;
                                        b = word.position.end + 1;
                                        nextw = Some(w2);
                                        cont = false;
                                        proof { lemma_ll_next_break(word, pst, lb); nlk = pst.wm.idx; }
                                    } else if word.word_type != WordType::CLOSE_PUNCTUATION
                                        && word.word_type != WordType::QUOTATION && (w2.word_type
                                        == WordType::CLOSE_PUNCTUATION || w2.word_type
                                        == WordType::QUOTATION || w2.word_type
                                        == WordType::HYPHEN) {
                                        if leading {
                                            e = w2.position.end;
                                            b = w2.position.brk;
                                            realw = crate::word::sat_add_exec(
                                                realw,
                                                w2.real_width,
                                            );
                                            idealw = crate::word::sat_add_exec(
                                                idealw,
                                                w2.ideal_width,
                                            );
                                        } else if unres.is_some() && count == 0 {
                                            let u = unres.unwrap();
                                            b = u.position.start;
                                            e = rewind_end_exec(u.position.start, &unres_prev);
                                            realw = if realw >= word.real_width {
                                                realw - word.real_width
                                            } else {
                                                0
                                            };
                                            idealw = if idealw >= word.ideal_width {
                                                idealw - word.ideal_width
                                            } else {
                                                0
                                            };
                                        } else {
                                            b = word.position.start;
                                            e = rewind_end_exec(word.position.start, &prevw);
                                            realw = if realw >= word.real_width {
                                                realw - word.real_width
                                            } else {
                                                0
                                            };
                                            idealw = if idealw >= word.ideal_width {
                                                idealw - word.ideal_width
                                            } else {
                                                0
                                            };
                                        }
                                        nextw = Some(w2);
                                        cont = false;
                                        proof {
                                            lemma_ll_next_break(word, pst, lb);
                                            nlk = ws@.idx;
                                            assert forall|j: int| 0 <= j < nlk && j < subs.len() implies class_of(
                                                #[trigger] subs[j],
                                            ) != WordType::NEWLINE by {
                                                if j < pst.wm.idx {
                                                    assert(nl_free(subs, pst.wm.idx));
                                                }
                                            }
                                            assert(nl_free(subs, nlk));
                                        }
                                    } else {
                                        e = e0;
                                        b = word.position.end;
                                        nextw = Some(w2);
                                        cont = false;
                                        proof { lemma_ll_next_break(word, pst, lb); nlk = pst.wm.idx; }
                                    }
                                } else {
                                    if (word.word_type == WordType::CJK || word.word_type
                                        == WordType::LATIN || word.word_type == WordType::NUMBER)
                                        && unres.is_some() {
                                        count = count + 1;
                                    }
                                    if unres.is_none() || count > 0 {
                                        leading = false;
                                    }
                                    prevw = Some(word);
                                    cur = w2;
                                    proof { lemma_ll_step(word, pst, lb); cur_from = pst.wm.idx; assert(cur.word_type != WordType::NEWLINE ==> nl_free(subs, ws@.idx)); }
                                }
                            },
                        }
                    }
                }
            }
            if e == b {
                if let Some(w) = &nextw {
                    if w.word_type == WordType::SPACE && w.position.start == b {
                        b = b + (w.position.end - w.position.start);
                    }
                }
            }
            proof {
                assert(b as int == ext_brk(line_loop(w1, st0, lb)));
            }
            self.chars = ws.into_chars();
            proof {
                assert(self.chars@ == m.chars);
            }
            e_rel = e;
            b_rel = b;
            rw = realw;
            iw = idealw;
        }
        proof {
            crate::encoding::lemma_suffix_boundary(m.chars, k0 as int, e_rel as int);
            crate::encoding::lemma_suffix_boundary(m.chars, k0 as int, b_rel as int);
        }
        let li = LineInfo {
            position: LinePosition { start, end: start + e_rel, brk: start + b_rel },
            line_height: 0,
            line_spacing: 0,
            real_width: rw,
            ideal_width: iw,
        };
        let new_idx = char_idx_at(&self.chars, k0, start, start + b_rel);
        self.prev_char_idx = new_idx;
        self.line_info_prev = Some(li);
        proof {
            assert(line_next_spec(m) == Some(li));
            lemma_nl_witness(
                m.chars,
                k0 as int,
                nlk,
                start as int,
                start as int + (if e_rel < b_rel {
                    e_rel as int
                } else {
                    b_rel as int
                }),
            );
        }
        Some(li)
    }
}

} // verus!
