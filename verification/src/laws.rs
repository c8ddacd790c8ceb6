use vstd::prelude::*;
use crate::line::LineInfo;

verus! {

/// A finished run of the engine over a text of `total` bytes: there is at
/// least one line, the first line starts at offset zero, every later line
/// starts exactly where its predecessor broke, the last break is the end of
/// the text, and every span stays inside the text.
pub open spec fn covering_run(lines: Seq<LineInfo>, total: int) -> bool {
    &&& lines.len() > 0
    &&& lines[0].position.start == 0
    &&& forall|i: int|
        0 <= i < lines.len() - 1 ==> (#[trigger] lines[i]).position.brk == lines[
            i + 1
        ].position.start
    &&& lines[lines.len() - 1].position.brk == total
    &&& forall|i: int|
        0 <= i < lines.len() ==> (#[trigger] lines[i]).position.start <= lines[i].position.brk
            <= total
}

/// The bytes of the spans `[start, brk)` of the lines, concatenated in
/// order.
pub open spec fn spans_concat(bytes: Seq<u8>, lines: Seq<LineInfo>) -> Seq<u8>
    decreases lines.len(),
{
    if lines.len() == 0 {
        Seq::empty()
    } else {
        bytes.subrange(lines[0].position.start as int, lines[0].position.brk as int)
            + spans_concat(bytes, lines.drop_first())
    }
}

proof fn lemma_coverage_from(bytes: Seq<u8>, lines: Seq<LineInfo>, s: int)
    requires
        lines.len() > 0,
        lines[0].position.start == s,
        forall|i: int|
            0 <= i < lines.len() - 1 ==> (#[trigger] lines[i]).position.brk == lines[
                i + 1
            ].position.start,
        lines[lines.len() - 1].position.brk == bytes.len(),
        forall|i: int|
            0 <= i < lines.len() ==> (#[trigger] lines[i]).position.start <= lines[i].position.brk
                <= bytes.len(),
    ensures
        spans_concat(bytes, lines) == bytes.subrange(s, bytes.len() as int),
    decreases lines.len(),
{
    let first = bytes.subrange(lines[0].position.start as int, lines[0].position.brk as int);
    if lines.len() == 1 {
        assert(spans_concat(bytes, lines.drop_first()) == Seq::<u8>::empty());
        assert(first + Seq::<u8>::empty() =~= first);
    } else {
        let rest = lines.drop_first();
        assert(rest[0] == lines[1]);
        assert(forall|i: int|
            0 <= i < rest.len() - 1 ==> (#[trigger] rest[i]).position.brk == rest[
                i + 1
            ].position.start) by {
            assert(forall|i: int|
                0 <= i < rest.len() - 1 ==> (#[trigger] rest[i]) == lines[i + 1] && rest[i + 1]
                    == lines[i + 2]);
        }
        assert(rest[rest.len() - 1] == lines[lines.len() - 1]);
        assert(forall|i: int|
            0 <= i < rest.len() ==> (#[trigger] rest[i]).position.start <= rest[i].position.brk
                <= bytes.len()) by {
            assert(forall|i: int| 0 <= i < rest.len() ==> (#[trigger] rest[i]) == lines[i + 1]);
        }
        lemma_coverage_from(bytes, rest, lines[0].position.brk as int);
        assert(first + bytes.subrange(lines[0].position.brk as int, bytes.len() as int)
            =~= bytes.subrange(s, bytes.len() as int));
    }
}

/// Coverage: concatenating `text[start .. brk]` over all the lines a run of
/// the engine emitted reproduces the input exactly. The spans telescope: a
/// line's break is the next line's start, the first line starts at the
/// text's first byte, and the last break is its end.
pub proof fn lemma_coverage(bytes: Seq<u8>, lines: Seq<LineInfo>)
    requires
        covering_run(lines, bytes.len() as int),
    ensures
        spans_concat(bytes, lines) == bytes,
{
    lemma_coverage_from(bytes, lines, 0);
    assert(bytes.subrange(0, bytes.len() as int) =~= bytes);
}

/// Monotonicity chaining: after a line is emitted, the stream stands at its
/// break, so the next line starts exactly there.
pub proof fn lemma_lines_adjacent(m: crate::line::LineModel)
    ensures
        crate::line::line_next_spec(m) matches Some(li) ==> crate::line::prev_brk_of(
            crate::line::line_model_after(m),
        ) == li.position.brk,
{
}

} // verus!
