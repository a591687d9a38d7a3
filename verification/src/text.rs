//! Lines of text as mathematical sequences: where a text breaks into lines,
//! and how lines are joined back into one text.
//!
//! A line ends at a line feed, or at a carriage return directly followed by a
//! line feed. A carriage return anywhere else belongs to its line. The last
//! line of a text need not be terminated.

use vstd::prelude::*;

verus! {

/// Position of the first line feed in `text`, or `text.len()` where it holds none.
pub open spec fn first_break(text: Seq<char>) -> int
    decreases text.len(),
{
    if text.len() == 0 || text[0] == '\n' {
        0
    } else {
        1 + first_break(text.drop_first())
    }
}

/// `line` without the carriage return that it ends in, if it ends in one.
pub open spec fn strip_cr(line: Seq<char>) -> Seq<char> {
    if line.len() > 0 && line.last() == '\r' {
        line.drop_last()
    } else {
        line
    }
}

/// The lines of `text`, without their terminators.
///
/// Every line feed ends a line; a carriage return directly before it is part
/// of the terminator. What follows the last line feed is a line of its own
/// unless it is empty, and keeps a carriage return that it ends in.
pub open spec fn lines(text: Seq<char>) -> Seq<Seq<char>>
    decreases text.len(),
{
    let cut = first_break(text);
    if text.len() == 0 {
        Seq::empty()
    } else if 0 <= cut < text.len() {
        seq![strip_cr(text.take(cut))] + lines(text.skip(cut + 1))
    } else {
        seq![text]
    }
}

/// The `parts` in order, with one `sep` between each two neighbours.
pub open spec fn join(parts: Seq<Seq<char>>, sep: char) -> Seq<char>
    decreases parts.len(),
{
    if parts.len() == 0 {
        Seq::empty()
    } else if parts.len() == 1 {
        parts[0]
    } else {
        parts[0] + seq![sep] + join(parts.drop_first(), sep)
    }
}

/// `line` holds no line feed.
pub open spec fn unbroken(line: Seq<char>) -> bool {
    forall|k: int| 0 <= k < line.len() ==> line[k] != '\n'
}

/// `first_break` is the least position of a line feed, and the length of a
/// text without one.
pub proof fn lemma_first_break(text: Seq<char>)
    ensures
        0 <= first_break(text) <= text.len(),
        first_break(text) < text.len() ==> text[first_break(text)] == '\n',
        unbroken(text.take(first_break(text))),
    decreases text.len(),
{
    if text.len() == 0 || text[0] == '\n' {
    } else {
        let rest = text.drop_first();
        lemma_first_break(rest);
        let cut = first_break(rest);
        let head = text.take(cut + 1);
        assert forall|k: int| 0 <= k < head.len() implies head[k] != '\n' by {
            if k > 0 {
                assert(head[k] == rest.take(cut)[k - 1]);
            }
        }
    }
}

/// A position that holds the first line feed, or the length of a text
/// without one, is what `first_break` gives.
pub proof fn lemma_first_break_at(text: Seq<char>, at: int)
    requires
        0 <= at <= text.len(),
        unbroken(text.take(at)),
        at < text.len() ==> text[at] == '\n',
    ensures
        first_break(text) == at,
    decreases text.len(),
{
    if text.len() == 0 {
    } else if text[0] == '\n' {
        if at > 0 {
            assert(text.take(at)[0] == '\n');
        }
    } else {
        let rest = text.drop_first();
        let head = rest.take(at - 1);
        assert forall|k: int| 0 <= k < head.len() implies head[k] != '\n' by {
            assert(head[k] == text.take(at)[k + 1]);
        }
        lemma_first_break_at(rest, at - 1);
    }
}

/// The lines of what starts at `start`, where the next line feed is at `at`:
/// the stretch between the two without its carriage return, then the lines
/// of what follows the line feed.
pub proof fn lemma_lines_step(text: Seq<char>, start: int, at: int)
    requires
        0 <= start <= at < text.len(),
        text[at] == '\n',
        unbroken(text.subrange(start, at)),
    ensures
        lines(text.skip(start)) == seq![strip_cr(text.subrange(start, at))] + lines(
            text.skip(at + 1),
        ),
{
    let tail = text.skip(start);
    assert(tail.take(at - start) =~= text.subrange(start, at));
    lemma_first_break_at(tail, at - start);
    assert(tail.skip(at - start + 1) =~= text.skip(at + 1));
}

/// The lines of what starts at `start` and holds no line feed: none where
/// nothing is left, else all of it as one line.
pub proof fn lemma_lines_rest(text: Seq<char>, start: int)
    requires
        0 <= start <= text.len(),
        unbroken(text.skip(start)),
    ensures
        lines(text.skip(start)) == if start == text.len() {
            Seq::<Seq<char>>::empty()
        } else {
            seq![text.skip(start)]
        },
{
    let tail = text.skip(start);
    assert(tail.take(tail.len() as int) =~= tail);
    lemma_first_break_at(tail, tail.len() as int);
}

/// No line holds a line feed.
pub proof fn lemma_lines_unbroken(text: Seq<char>)
    ensures
        forall|i: int| 0 <= i < lines(text).len() ==> unbroken(#[trigger] lines(text)[i]),
    decreases text.len(),
{
    lemma_first_break(text);
    let cut = first_break(text);
    if text.len() == 0 {
    } else if cut < text.len() {
        let rest = text.skip(cut + 1);
        lemma_lines_unbroken(rest);
        let first = strip_cr(text.take(cut));
        assert(unbroken(first)) by {
            assert forall|k: int| 0 <= k < first.len() implies first[k] != '\n' by {
                assert(first[k] == text.take(cut)[k]);
            }
        }
        assert forall|i: int| 0 <= i < lines(text).len() implies unbroken(
            #[trigger] lines(text)[i],
        ) by {
            if i > 0 {
                assert(lines(text)[i] == lines(rest)[i - 1]);
            }
        }
    } else {
        assert(text.take(cut) =~= text);
    }
}

/// Joining one more part: the part alone where there was none before, else
/// what was joined so far, a separator, and the part.
pub proof fn lemma_join_push(parts: Seq<Seq<char>>, part: Seq<char>, sep: char)
    ensures
        join(parts.push(part), sep) == if parts.len() == 0 {
            part
        } else {
            join(parts, sep) + seq![sep] + part
        },
    decreases parts.len(),
{
    let all = parts.push(part);
    if parts.len() == 0 {
    } else {
        assert(all.drop_first() =~= parts.drop_first().push(part));
        lemma_join_push(parts.drop_first(), part, sep);
        assert(join(all, sep) =~= join(parts, sep) + seq![sep] + part);
    }
}

/// The length of a joined text: the lengths of the parts, and one separator
/// fewer than there are parts.
pub open spec fn joined_len(parts: Seq<Seq<char>>) -> int
    decreases parts.len(),
{
    if parts.len() == 0 {
        0
    } else if parts.len() == 1 {
        parts[0].len() as int
    } else {
        parts[0].len() + 1 + joined_len(parts.drop_first())
    }
}

/// `join` yields a text of length `joined_len`.
pub proof fn lemma_join_len(parts: Seq<Seq<char>>, sep: char)
    ensures
        join(parts, sep).len() == joined_len(parts),
    decreases parts.len(),
{
    if parts.len() >= 2 {
        lemma_join_len(parts.drop_first(), sep);
    }
}

/// What joining by line feeds and splitting again makes of `parts`: each
/// part but the last loses the carriage return that it ends in, which then
/// stands directly before a line feed.
pub open spec fn rejoined(parts: Seq<Seq<char>>) -> Seq<Seq<char>> {
    Seq::new(
        parts.len(),
        |i: int|
            if i < parts.len() - 1 {
                strip_cr(parts[i])
            } else {
                parts[i]
            },
    )
}

/// The lines of a text that was joined by line feeds from `parts`, each of
/// them a line (not empty, no line feed in it), are `rejoined(parts)`.
pub proof fn lemma_lines_of_join(parts: Seq<Seq<char>>)
    requires
        forall|i: int| 0 <= i < parts.len() ==> (#[trigger] parts[i]).len() > 0,
        forall|i: int| 0 <= i < parts.len() ==> unbroken(#[trigger] parts[i]),
    ensures
        lines(join(parts, '\n')) == rejoined(parts),
    decreases parts.len(),
{
    let text = join(parts, '\n');
    if parts.len() == 0 {
        assert(lines(text) =~= rejoined(parts));
    } else if parts.len() == 1 {
        assert(text.take(text.len() as int) =~= text);
        lemma_first_break_at(text, text.len() as int);
        assert(lines(text) =~= rejoined(parts));
    } else {
        let first = parts[0];
        let rest = parts.drop_first();
        assert(text.take(first.len() as int) =~= first);
        lemma_first_break_at(text, first.len() as int);
        assert(text.skip(first.len() as int + 1) =~= join(rest, '\n'));
        assert forall|i: int| 0 <= i < rest.len() implies (#[trigger] rest[i]).len() > 0
            && unbroken(rest[i]) by {
            assert(rest[i] == parts[i + 1]);
        }
        lemma_lines_of_join(rest);
        assert(seq![strip_cr(first)] + rejoined(rest) =~= rejoined(parts));
    }
}

} // verus!
