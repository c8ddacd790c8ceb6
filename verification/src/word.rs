use vstd::prelude::*;
use crate::classify::WordType;
use crate::classify::class_of;
use crate::classify::char_width;
use crate::classify::get_char_width;
use crate::encoding::byte_index;
use crate::encoding::char_bytes;
use crate::encoding::char_utf8_len;
use crate::encoding::chars_of;
use crate::encoding::is_boundary;
use crate::encoding::lemma_byte_index_step;
use crate::encoding::lemma_byte_index_mono;
use crate::encoding::lemma_byte_index_zero;
use crate::encoding::lemma_char_bytes_bounds;

verus! {

/// Byte range of a word token: `[start, end)` is the token, `brk` is the
/// provisional break offset inside or before it, `usize::MAX` when the token
/// records none.
#[derive(Debug, Clone, Copy, PartialEq, Eq, Structural)]
pub struct WordPosition {
    pub start: usize,
    pub end: usize,
    pub brk: usize,
}

/// One word token: its byte range, class, the cell width it would like
/// (`ideal_width`) and the cell width counted against the line budget
/// (`real_width`, frozen at the provisional break when one was recorded).
#[derive(Debug, Clone, Copy, PartialEq, Eq, Structural)]
pub struct WordInfo {
    pub position: WordPosition,
    pub word_type: WordType,
    pub real_width: usize,
    pub ideal_width: usize,
}

/// Mathematical state of a word stream: the code points of its text, the
/// position of the next unread code point, the byte offset and provisional
/// break carried over from the token read last, and the width budget.
pub ghost struct WordModel {
    pub chars: Seq<char>,
    pub idx: int,
    pub prev_end: int,
    pub prev_brk: int,
    pub remaining: int,
    pub tab: int,
    pub letter_space: int,
}

/// `a + b` clamped to `usize`.
pub open spec fn sat_add(a: int, b: int) -> int {
    if a + b > usize::MAX {
        usize::MAX as int
    } else {
        a + b
    }
}

/// `a + b` clamped to `[0, usize::MAX]`, as `usize::saturating_add_signed`
/// computes it.
pub open spec fn sat_add_signed(a: int, b: int) -> int {
    if a + b < 0 {
        0
    } else if a + b > usize::MAX {
        usize::MAX as int
    } else {
        a + b
    }
}

/// The merge rule: whether a token of class `wt` continues when the next code
/// point has class `next`.
pub open spec fn merge_continues(wt: WordType, next: WordType) -> bool {
    match wt {
        WordType::LATIN => next == WordType::LATIN || next == WordType::NUMBER,
        WordType::NUMBER => next == WordType::NUMBER,
        WordType::HYPHEN => next == WordType::HYPHEN,
        WordType::OPEN_PUNCTUATION => next == WordType::OPEN_PUNCTUATION,
        WordType::CLOSE_PUNCTUATION => next == WordType::CLOSE_PUNCTUATION,
        WordType::SPACE => next == WordType::SPACE,
        WordType::QUOTATION => next == WordType::QUOTATION,
        _ => false,
    }
}

/// Accumulator of the scan that reads one word token: the next code point to
/// read, the byte offset reached, the class fixed by the first code point,
/// the accumulated width, and the provisional break with its frozen width.
pub ghost struct ScanState {
    pub idx: int,
    pub end: int,
    pub wt: WordType,
    pub width: int,
    pub brk: int,
    pub real: int,
}

/// Reads code points from `st.idx` on, merging per `merge_continues`,
/// tracking widths against the remaining budget `rem`, and recording the
/// provisional break where adding the next code point would overflow.
/// A newline token records its break just before the newline byte.
pub open spec fn scan_word(chars: Seq<char>, rem: int, tab: int, ls: int, st: ScanState) -> ScanState
    decreases chars.len() - st.idx,
    when 0 <= st.idx < chars.len()
{
    let c = chars[st.idx];
    let wt1 = if st.wt == WordType::UNKNOWN {
        class_of(c)
    } else {
        st.wt
    };
    let end1 = st.end + char_bytes(c);
    let width1 = sat_add(st.width, sat_add_signed(char_width(c, tab as nat) as int, ls));
    let has_next = st.idx + 1 < chars.len();
    let cw_next = if has_next {
        char_width(chars[st.idx + 1], tab as nat) as int
    } else {
        0
    };
    let wt_next = if has_next {
        class_of(chars[st.idx + 1])
    } else {
        WordType::UNKNOWN
    };
    let hit = sat_add(width1, cw_next) > rem && st.brk == usize::MAX;
    let brk1 = if hit {
        end1
    } else {
        st.brk
    };
    let real1 = if hit {
        width1
    } else {
        st.real
    };
    let st1 = ScanState { idx: st.idx + 1, end: end1, wt: wt1, width: width1, brk: brk1, real: real1 };
    if wt1 == WordType::NEWLINE {
        ScanState { brk: end1 - 1, ..st1 }
    } else if has_next && merge_continues(wt1, wt_next) {
        scan_word(chars, rem, tab, ls, st1)
    } else {
        st1
    }
}

/// The scan of the next token from stream state `m`.
pub open spec fn scan_of(m: WordModel) -> ScanState {
    scan_word(
        m.chars,
        m.remaining,
        m.tab,
        m.letter_space,
        ScanState {
            idx: m.idx,
            end: m.prev_end,
            wt: WordType::UNKNOWN,
            width: 0,
            brk: m.prev_brk,
            real: 0,
        },
    )
}

/// The width charged against the budget: the frozen width when a break was
/// recorded during this token, else the full width.
pub open spec fn scan_real(s: ScanState) -> int {
    if s.real == 0 {
        s.width
    } else {
        s.real
    }
}

/// The token the stream yields next, `None` when the text is exhausted.
pub open spec fn next_info(m: WordModel) -> Option<WordInfo> {
    if m.idx >= m.chars.len() {
        None
    } else {
        let s = scan_of(m);
        Some(
            WordInfo {
                position: WordPosition {
                    start: m.prev_end as usize,
                    end: s.end as usize,
                    brk: s.brk as usize,
                },
                word_type: s.wt,
                real_width: scan_real(s) as usize,
                ideal_width: s.width as usize,
            },
        )
    }
}

/// The stream state after yielding one token (unchanged when exhausted):
/// the token's charged width leaves the budget, saturating at zero.
pub open spec fn next_model(m: WordModel) -> WordModel {
    if m.idx >= m.chars.len() {
        m
    } else {
        let s = scan_of(m);
        WordModel {
            idx: s.idx,
            prev_end: s.end,
            prev_brk: s.brk,
            remaining: if m.remaining >= scan_real(s) {
                m.remaining - scan_real(s)
            } else {
                0
            },
            ..m
        }
    }
}

/// Validity of a word-stream state: the carried byte offset is the byte index
/// of the read position, the carried break is a boundary at or before it, the
/// whole text fits the machine's byte offsets, and the tunables are machine
/// integers.
pub open spec fn word_wf(m: WordModel) -> bool {
    &&& 0 <= m.idx <= m.chars.len()
    &&& m.prev_end == byte_index(m.chars, m.idx)
    &&& byte_index(m.chars, m.chars.len() as int) <= usize::MAX
    &&& (m.prev_brk == usize::MAX as int || (is_boundary(m.chars, m.prev_brk) && 0 <= m.prev_brk
        <= m.prev_end))
    &&& 0 <= m.remaining <= usize::MAX
    &&& 0 <= m.tab <= usize::MAX
    &&& isize::MIN <= m.letter_space <= isize::MAX
}

/// Facts the scan guarantees from a valid entry state, proved by the
/// induction that follows its recursion.
pub proof fn lemma_scan_props(chars: Seq<char>, rem: int, tab: int, ls: int, st: ScanState)
    requires
        0 <= st.idx < chars.len(),
        st.end == byte_index(chars, st.idx),
        byte_index(chars, chars.len() as int) <= usize::MAX,
        st.brk == usize::MAX as int || (is_boundary(chars, st.brk) && 0 <= st.brk <= st.end),
        0 <= st.width <= usize::MAX,
        0 <= st.real <= st.width,
        st.wt != WordType::NEWLINE,
        st.wt != WordType::RETURN,
        st.wt != WordType::UNKNOWN ==> merge_continues(st.wt, class_of(chars[st.idx])),
    ensures
        ({
            let s = scan_word(chars, rem, tab, ls, st);
            &&& st.idx < s.idx <= chars.len()
            &&& s.end == byte_index(chars, s.idx)
            &&& st.end < s.end
            &&& s.brk == usize::MAX as int || (is_boundary(chars, s.brk) && 0 <= s.brk <= s.end)
            &&& 0 <= s.width <= usize::MAX
            &&& 0 <= s.real <= s.width
            &&& (s.wt == WordType::NEWLINE ==> s.brk == s.end - 1)
            &&& (s.brk == st.brk || s.brk >= st.end + 1 || (s.wt == WordType::NEWLINE && s.brk
                == s.end - 1))
            &&& ((s.wt == WordType::NEWLINE || s.wt == WordType::RETURN) ==> s.end == st.end + 1)
            &&& s.wt == (if st.wt == WordType::UNKNOWN {
                class_of(chars[st.idx])
            } else {
                st.wt
            })
            &&& (s.wt != WordType::NEWLINE ==> forall|j: int|
                st.idx <= j < s.idx ==> class_of(#[trigger] chars[j]) != WordType::NEWLINE)
        }),
    decreases chars.len() - st.idx,
{
    let c = chars[st.idx];
    lemma_byte_index_step(chars, st.idx);
    lemma_byte_index_mono(chars, st.idx + 1, chars.len() as int);
    lemma_char_bytes_bounds(c);
    let wt1 = if st.wt == WordType::UNKNOWN {
        class_of(c)
    } else {
        st.wt
    };
    let end1 = st.end + char_bytes(c);
    let width1 = sat_add(st.width, sat_add_signed(char_width(c, tab as nat) as int, ls));
    let has_next = st.idx + 1 < chars.len();
    let cw_next = if has_next {
        char_width(chars[st.idx + 1], tab as nat) as int
    } else {
        0
    };
    let wt_next = if has_next {
        class_of(chars[st.idx + 1])
    } else {
        WordType::UNKNOWN
    };
    let hit = sat_add(width1, cw_next) > rem && st.brk == usize::MAX;
    let brk1 = if hit {
        end1
    } else {
        st.brk
    };
    let real1 = if hit {
        width1
    } else {
        st.real
    };
    let st1 = ScanState { idx: st.idx + 1, end: end1, wt: wt1, width: width1, brk: brk1, real: real1 };
    assert(is_boundary(chars, end1)) by {
        assert(end1 == byte_index(chars, st.idx + 1));
    }
    if wt1 == WordType::NEWLINE || wt1 == WordType::RETURN {
        assert(char_bytes(c) == 1) by {
            assert(st.wt == WordType::UNKNOWN && (class_of(c) == WordType::NEWLINE || class_of(c)
                == WordType::RETURN));
            assert(c as u32 == 0x0A || c as u32 == 0x0D);
            vstd::utf8::char_is_scalar(c);
        }
        assert(end1 - 1 == st.end);
        assert(is_boundary(chars, end1 - 1));
    } else if has_next && merge_continues(wt1, wt_next) {
        lemma_scan_props(chars, rem, tab, ls, st1);
    }
}

/// Stream facts for one `next` step on a valid state.
pub proof fn lemma_next_props(m: WordModel)
    requires
        word_wf(m),
    ensures
        word_wf(next_model(m)),
        next_info(m) is Some <==> m.idx < m.chars.len(),
        next_info(m) is Some ==> {
            let i = next_info(m)->Some_0;
            let m1 = next_model(m);
            &&& i.position.start == m.prev_end
            &&& i.position.start < i.position.end
            &&& i.position.end == m1.prev_end
            &&& i.position.brk == m1.prev_brk as usize
            &&& i.position.end <= byte_index(m.chars, m.chars.len() as int)
            &&& is_boundary(m.chars, i.position.start as int)
            &&& is_boundary(m.chars, i.position.end as int)
            &&& (i.position.brk == usize::MAX || (is_boundary(m.chars, i.position.brk as int)
                && i.position.brk <= i.position.end))
            &&& m.idx < m1.idx
            &&& (i.word_type == WordType::NEWLINE ==> i.position.brk + 1 == i.position.end)
            &&& (i.position.brk as int == m.prev_brk || i.position.brk > i.position.start || (
            i.word_type == WordType::NEWLINE && i.position.brk + 1 == i.position.end))
            &&& ((i.word_type == WordType::NEWLINE || i.word_type == WordType::RETURN)
                ==> i.position.end == i.position.start + 1)
            &&& (i.word_type != WordType::NEWLINE ==> forall|j: int|
                m.idx <= j < next_model(m).idx ==> class_of(#[trigger] m.chars[j])
                    != WordType::NEWLINE)
        },
{
    if m.idx < m.chars.len() {
        lemma_scan_props(
            m.chars,
            m.remaining,
            m.tab,
            m.letter_space,
            ScanState {
                idx: m.idx,
                end: m.prev_end,
                wt: WordType::UNKNOWN,
                width: 0,
                brk: m.prev_brk,
                real: 0,
            },
        );
        let s = scan_of(m);
        lemma_byte_index_mono(m.chars, s.idx, m.chars.len() as int);
        lemma_byte_index_mono(m.chars, 0, m.idx);
        lemma_byte_index_zero(m.chars);
        if s.wt == WordType::NEWLINE {
            assert(s.brk == s.end - 1);
            assert(s.end <= usize::MAX);
        }
    }
}

/// A word stream over a piece of text. `new` fixes the text, the tab width,
/// the letter spacing, and the initial remaining width; each call to `next`
/// yields the following token. The stream owns a code-point vector and reads
/// it from `base` on, so a caller may lend a larger text and take it back.
pub struct Word {
    chars: Vec<char>,
    base: usize,
    idx: usize,
    prev_end: usize,
    prev_brk: usize,
    remaining_width: usize,
    tab_width: usize,
    letter_space: isize,
}

impl View for Word {
    type V = WordModel;

    closed spec fn view(&self) -> WordModel {
        WordModel {
            chars: self.chars@.skip(self.base as int),
            idx: self.idx as int,
            prev_end: self.prev_end as int,
            prev_brk: self.prev_brk as int,
            remaining: self.remaining_width as int,
            tab: self.tab_width as int,
            letter_space: self.letter_space as int,
        }
    }
}

/// `a.saturating_add(b)` for `usize`.
pub(crate) fn sat_add_exec(a: usize, b: usize) -> (r: usize)
    ensures
        r == sat_add(a as int, b as int),
{
    if a > usize::MAX - b {
        usize::MAX
    } else {
        a + b
    }
}

/// `a.saturating_add_signed(b)` for `usize`.
fn sat_add_signed_exec(a: usize, b: isize) -> (r: usize)
    ensures
        r == sat_add_signed(a as int, b as int),
{
    if b >= 0 {
        sat_add_exec(a, b as usize)
    } else {
        let neg = (-(b + 1)) as usize;
        if a > neg {
            a - neg - 1
        } else {
            0
        }
    }
}

/// Whether a token of class `wt` continues over a next code point of class
/// `next`.
fn merges(wt: WordType, next: WordType) -> (r: bool)
    ensures
        r == merge_continues(wt, next),
{
    match wt {
        WordType::LATIN => next == WordType::LATIN || next == WordType::NUMBER,
        WordType::NUMBER => next == WordType::NUMBER,
        WordType::HYPHEN => next == WordType::HYPHEN,
        WordType::OPEN_PUNCTUATION => next == WordType::OPEN_PUNCTUATION,
        WordType::CLOSE_PUNCTUATION => next == WordType::CLOSE_PUNCTUATION,
        WordType::SPACE => next == WordType::SPACE,
        WordType::QUOTATION => next == WordType::QUOTATION,
        _ => false,
    }
}

impl Word {
    /// Validity of this stream's state.
    pub closed spec fn wf(&self) -> bool {
        &&& word_wf(self@)
        &&& self.base <= self.chars@.len()
    }

    /// The whole code-point vector the stream holds, including the part
    /// before its base.
    pub closed spec fn full_view(&self) -> Seq<char> {
        self.chars@
    }

    /// Internal constructor over an already-decoded code-point vector, read
    /// from position `base` on.
    pub(crate) fn from_chars(
        chars: Vec<char>,
        base: usize,
        remaining_width: usize,
        tab_width: usize,
        letter_space: isize,
    ) -> (w: Word)
        requires
            base <= chars@.len(),
            byte_index(
                chars@.skip(base as int),
                chars@.skip(base as int).len() as int,
            ) <= usize::MAX,
        ensures
            w.wf(),
            w.full_view() == chars@,
            w@ == (WordModel {
                chars: chars@.skip(base as int),
                idx: 0,
                prev_end: 0,
                prev_brk: usize::MAX as int,
                remaining: sat_add_signed(remaining_width as int, letter_space as int),
                tab: tab_width as int,
                letter_space: letter_space as int,
            }),
    {
        let rw = sat_add_signed_exec(remaining_width, letter_space);
        proof {
            lemma_byte_index_zero(chars@.skip(base as int));
        }
        Word {
            chars,
            base,
            idx: 0,
            prev_end: 0,
            prev_brk: usize::MAX,
            remaining_width: rw,
            tab_width,
            letter_space,
        }
    }

    /// Hands the held code-point vector back.
    pub(crate) fn into_chars(self) -> (v: Vec<char>)
        ensures
            v@ == self.full_view(),
    {
        self.chars
    }

    /// A word stream over `text`. The letter spacing is folded into the
    /// initial remaining width as the budget is, saturating.
    pub fn new(text: &str, remaining_width: usize, tab_width: usize, letter_space: isize) -> (w:
        Word)
        ensures
            w.wf(),
            w@ == (WordModel {
                chars: text@,
                idx: 0,
                prev_end: 0,
                prev_brk: usize::MAX as int,
                remaining: sat_add_signed(remaining_width as int, letter_space as int),
                tab: tab_width as int,
                letter_space: letter_space as int,
            }),
    {
        let chars = chars_of(text);
        let total = text.as_bytes().len();
        proof {
            assert(text@.take(text@.len() as int) =~= text@);
            assert(chars@.skip(0) =~= chars@);
            assert(total == byte_index(chars@, chars@.len() as int));
        }
        Word::from_chars(chars, 0, remaining_width, tab_width, letter_space)
    }

    /// Replace the remaining width of the budget.
    pub fn set_remaining_width(&mut self, remaining_width: usize)
        ensures
            final(self)@ == (WordModel { remaining: remaining_width as int, ..old(self)@ }),
            old(self).wf() ==> final(self).wf(),
    {
        self.remaining_width = remaining_width;
    }

    /// The remaining width of the budget.
    pub fn get_remaining_width(&self) -> (r: usize)
        ensures
            r == self@.remaining,
    {
        self.remaining_width
    }

    /// The next word token, `None` when the text is exhausted. The token is
    /// exactly `next_info` of the stream's state, and the state advances to
    /// `next_model` of it.
    pub fn next(&mut self) -> (r: Option<WordInfo>)
        requires
            old(self).wf(),
        ensures
            final(self).wf(),
            final(self).full_view() == old(self).full_view(),
            r == next_info(old(self)@),
            final(self)@ == next_model(old(self)@),
    {
        proof {
            lemma_next_props(self@);
        }
        let base = self.base;
        let all = self.chars.len();
        let nchars = all - base;
        if self.idx >= nchars {
            return None;
        }
        let ghost m = self@;
        let start = self.prev_end;
        let mut idx = self.idx;
        let mut end = self.prev_end;
        let mut wt = WordType::UNKNOWN;
        let mut width: usize = 0;
        let mut brk = self.prev_brk;
        let mut realw: usize = 0;
        let mut cont = true;
        while cont
            invariant
                word_wf(m),
                m == self@,
                m.idx < m.chars.len(),
                nchars == m.chars.len(),
                base == self.base,
                all == self.chars@.len(),
                base + nchars == all,
                m.idx <= idx <= m.chars.len(),
                end == byte_index(m.chars, idx as int),
                realw <= width,
                cont ==> idx < m.chars.len(),
                cont ==> wt != WordType::NEWLINE,
                cont ==> scan_word(
                    m.chars,
                    m.remaining,
                    m.tab,
                    m.letter_space,
                    ScanState {
                        idx: idx as int,
                        end: end as int,
                        wt,
                        width: width as int,
                        brk: brk as int,
                        real: realw as int,
                    },
                ) == scan_of(m),
                !cont ==> (ScanState {
                    idx: idx as int,
                    end: end as int,
                    wt,
                    width: width as int,
                    brk: brk as int,
                    real: realw as int,
                }) == scan_of(m),
            decreases m.chars.len() - idx + (if cont {
                1int
            } else {
                0int
            }),
        {
            let ghost st_in = ScanState {
                idx: idx as int,
                end: end as int,
                wt,
                width: width as int,
                brk: brk as int,
                real: realw as int,
            };
            let c = self.chars[base + idx];
            proof {
                assert(c == m.chars[idx as int]);
            }
            let clen = char_utf8_len(c);
            let cwidth = get_char_width(c, self.tab_width);
            if wt == WordType::UNKNOWN {
                wt = WordType::from(c);
            }
            idx = idx + 1;
            let has_next = idx < nchars;
            proof {
                if has_next {
                    assert(self.chars@[base + idx as int] == m.chars[idx as int]);
                }
            }
            let cw_next: usize = if has_next {
                get_char_width(self.chars[base + idx], self.tab_width)
            } else {
                0
            };
            let wt_next: WordType = if has_next {
                WordType::from(self.chars[base + idx])
            } else {
                WordType::UNKNOWN
            };
            proof {
                lemma_byte_index_step(m.chars, idx - 1);
                lemma_byte_index_mono(m.chars, idx as int, m.chars.len() as int);
            }
            end = end + clen;
            width = sat_add_exec(width, sat_add_signed_exec(cwidth, self.letter_space));
            let lookahead = sat_add_exec(width, cw_next);
            if lookahead > self.remaining_width && brk == usize::MAX {
                brk = end;
                realw = width;
            }
            if wt == WordType::NEWLINE {
                brk = end - 1;
                cont = false;
            } else if !(has_next && merges(wt, wt_next)) {
                cont = false;
            }
            proof {
                let st_out = ScanState {
                    idx: idx as int,
                    end: end as int,
                    wt,
                    width: width as int,
                    brk: brk as int,
                    real: realw as int,
                };
                assert(scan_word(m.chars, m.remaining, m.tab, m.letter_space, st_in) == if cont {
                    scan_word(m.chars, m.remaining, m.tab, m.letter_space, st_out)
                } else {
                    st_out
                });
            }
        }
        let real_width = if realw == 0 {
            width
        } else {
            realw
        };
        self.remaining_width = if self.remaining_width >= real_width {
            self.remaining_width - real_width
        } else {
            0
        };
        self.idx = idx;
        self.prev_end = end;
        self.prev_brk = brk;
        Some(
            WordInfo {
                position: WordPosition { start, end, brk },
                word_type: wt,
                real_width,
                ideal_width: width,
            },
        )
    }
}

} // verus!
