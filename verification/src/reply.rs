//! Cleaning of a reply: the device's answer without the protocol's framing.
//!
//! A reply arrives as lines. Empty lines carry nothing, and a line that is
//! exactly `.` only marks the end of the reply. What is left, joined by line
//! feeds, is the text for the user.

use crate::strings::{push_range, to_chars};
use crate::text::{
    join, joined_len, lemma_join_len, lemma_join_push, lemma_lines_of_join, lemma_lines_rest,
    lemma_lines_step, lemma_lines_unbroken, lines, rejoined, strip_cr, unbroken,
};
use vstd::prelude::*;

verus! {

/// A line that belongs to the reply's text: not empty, and not the lone `.`
/// that ends a reply.
pub open spec fn is_payload(line: Seq<char>) -> bool {
    line.len() > 0 && !(line.len() == 1 && line[0] == '.')
}

/// `is_payload` as a predicate for `Seq::filter`.
pub open spec fn payload() -> spec_fn(Seq<char>) -> bool {
    |line: Seq<char>| is_payload(line)
}

/// The lines of `text` that belong to the reply, in the order of `text`.
pub open spec fn kept_lines(text: Seq<char>) -> Seq<Seq<char>> {
    lines(text).filter(payload())
}

/// The cleaned reply: the kept lines of `text`, joined by line feeds.
pub open spec fn cleanup(text: Seq<char>) -> Seq<char> {
    join(kept_lines(text), '\n')
}

/// `positions` tells where in `all` each line of `part` stands: one position
/// for each line, rising from line to line.
pub open spec fn in_order_of(
    part: Seq<Seq<char>>,
    all: Seq<Seq<char>>,
    positions: Seq<int>,
) -> bool {
    &&& positions.len() == part.len()
    &&& forall|i: int|
        0 <= i < part.len() ==> {
            &&& 0 <= #[trigger] positions[i] < all.len()
            &&& all[positions[i]] == part[i]
        }
    &&& forall|i: int, j: int|
        0 <= i < j < part.len() ==> #[trigger] positions[i] < #[trigger] positions[j]
}

/// No kept line of `text` but the last ends in a carriage return.
///
/// A kept line ends in one where the text held two or more carriage returns
/// before a line feed. Joined to the next line by a line feed, that carriage
/// return would read as part of a line terminator.
pub open spec fn settled(text: Seq<char>) -> bool {
    forall|i: int|
        0 <= i < kept_lines(text).len() - 1 ==> (#[trigger] kept_lines(text)[i]).last() != '\r'
}

/// `text` with `line` as one more line after it, if `line` belongs to the
/// reply.
spec fn with_line(text: Seq<char>, line: Seq<char>) -> Seq<char> {
    if !is_payload(line) {
        text
    } else if text.len() == 0 {
        line
    } else {
        text + seq!['\n'] + line
    }
}

/// Kept lines are never empty, so a text joined from them is empty only
/// where there are none.
proof fn lemma_joined_payload_empty(kept: Seq<Seq<char>>)
    requires
        forall|i: int| 0 <= i < kept.len() ==> is_payload(#[trigger] kept[i]),
    ensures
        join(kept, '\n').len() == 0 <==> kept.len() == 0,
{
    if kept.len() > 0 {
        assert(is_payload(kept[0]));
    }
}

/// What `filter` makes of a single line.
proof fn lemma_filter_one(line: Seq<char>)
    ensures
        seq![line].filter(payload()) == if is_payload(line) {
            seq![line]
        } else {
            Seq::<Seq<char>>::empty()
        },
{
    let none = Seq::<Seq<char>>::empty();
    assert(seq![line] =~= none.push(line));
    none.lemma_filter_push(line, payload());
    none.lemma_filter_len(payload());
    assert(none.filter(payload()) =~= none);
}

/// One more line after the lines `kept`: the joined text grows by
/// `with_line`, the kept lines by the line if it belongs to the reply.
proof fn lemma_with_line(kept: Seq<Seq<char>>, line: Seq<char>)
    requires
        forall|i: int| 0 <= i < kept.len() ==> is_payload(#[trigger] kept[i]),
    ensures
        with_line(join(kept, '\n'), line) == join(kept + seq![line].filter(payload()), '\n'),
        forall|i: int|
            0 <= i < (kept + seq![line].filter(payload())).len() ==> is_payload(
                #[trigger] (kept + seq![line].filter(payload()))[i],
            ),
{
    lemma_filter_one(line);
    if is_payload(line) {
        assert(kept + seq![line] =~= kept.push(line));
        lemma_join_push(kept, line, '\n');
        lemma_joined_payload_empty(kept);
    } else {
        assert(kept + Seq::<Seq<char>>::empty() =~= kept);
    }
}

/// Whether the characters of `chars` from `from` up to `to` are a line that
/// belongs to the reply.
fn is_payload_at(chars: &Vec<char>, from: usize, to: usize) -> (kept: bool)
    requires
        from <= to <= chars.len(),
    ensures
        kept == is_payload(chars@.subrange(from as int, to as int)),
{
    if to == from {
        false
    } else {
        !(to - from == 1 && chars[from] == '.')
    }
}

/// Appends the line that `chars` holds from `from` up to `to` to `text`,
/// after a line feed if `text` has lines already; leaves `text` as it is
/// where the line does not belong to the reply.
fn append_line(text: &mut String, chars: &Vec<char>, from: usize, to: usize)
    requires
        from <= to <= chars.len(),
    ensures
        final(text)@ == with_line(old(text)@, chars@.subrange(from as int, to as int)),
{
    if is_payload_at(chars, from, to) {
        if !text.as_str().is_empty() {
            text.push('\n');
        }
        push_range(text, chars, from, to);
        assert(text@ =~= with_line(old(text)@, chars@.subrange(from as int, to as int)));
    }
}

/// Strips a raw reply of the protocol's framing.
///
/// The reply is split into lines at each line feed, a carriage return
/// directly before a line feed going with it. Empty lines and lines that are
/// exactly `.` are dropped; the others are joined by single line feeds, in
/// their order, with no line feed after the last.
pub fn cleanup_reply(reply: String) -> (cleaned: String)
    ensures
        cleaned@ == cleanup(reply@),
{
    let chars = to_chars(reply.as_str());
    let n: usize = chars.len();
    let mut cleaned = String::new();
    // The lines kept so far, and where the line that is being read begins.
    let ghost mut kept: Seq<Seq<char>> = Seq::empty();
    let mut start: usize = 0;
    let mut at: usize = 0;
    proof {
        assert(chars@.skip(0) =~= chars@);
        assert(kept + kept_lines(chars@) =~= kept_lines(chars@));
    }
    while at < n
        invariant
            n == chars.len(),
            start <= at <= n,
            forall|k: int| start <= k < at ==> chars@[k] != '\n',
            kept_lines(chars@) == kept + kept_lines(chars@.skip(start as int)),
            forall|i: int| 0 <= i < kept.len() ==> is_payload(#[trigger] kept[i]),
            cleaned@ == join(kept, '\n'),
        decreases n - at,
    {
        if chars[at] == '\n' {
            let end: usize = if start < at && chars[at - 1] == '\r' {
                at - 1
            } else {
                at
            };
            proof {
                let line = chars@.subrange(start as int, end as int);
                let rest = lines(chars@.skip(at + 1));
                assert(strip_cr(chars@.subrange(start as int, at as int)) =~= line);
                lemma_lines_step(chars@, start as int, at as int);
                Seq::filter_distributes_over_add(seq![line], rest, payload());
                lemma_with_line(kept, line);
                assert(kept_lines(chars@) =~= (kept + seq![line].filter(payload()))
                    + rest.filter(payload()));
                kept = kept + seq![line].filter(payload());
            }
            append_line(&mut cleaned, &chars, start, end);
            start = at + 1;
        }
        at += 1;
    }
    proof {
        let line = chars@.subrange(start as int, n as int);
        assert(chars@.skip(start as int) =~= line);
        lemma_lines_rest(chars@, start as int);
        lemma_with_line(kept, line);
        lemma_filter_one(line);
    }
    append_line(&mut cleaned, &chars, start, n);
    cleaned
}

/// Where the lines that `filter` keeps stand in the sequence they are taken
/// from: in rising positions, one for each line that meets `payload`.
proof fn lemma_filter_positions(all: Seq<Seq<char>>) -> (positions: Seq<int>)
    ensures
        in_order_of(all.filter(payload()), all, positions),
        forall|i: int|
            0 <= i < all.filter(payload()).len() ==> is_payload(
                #[trigger] all.filter(payload())[i],
            ),
        forall|k: int|
            0 <= k < all.len() ==> (is_payload(#[trigger] all[k]) <==> positions.contains(k)),
    decreases all.len(),
{
    if all.len() == 0 {
        all.lemma_filter_len(payload());
        Seq::empty()
    } else {
        let front = all.drop_last();
        let last = all.last();
        let before = lemma_filter_positions(front);
        assert(all =~= front.push(last));
        front.lemma_filter_push(last, payload());
        if is_payload(last) {
            let positions = before.push(all.len() - 1);
            assert forall|k: int| 0 <= k < all.len() implies (is_payload(#[trigger] all[k])
                <==> positions.contains(k)) by {
                if k < front.len() {
                    assert(all[k] == front[k]);
                    if before.contains(k) {
                        let i = choose|i: int| 0 <= i < before.len() && before[i] == k;
                        assert(positions[i] == k);
                    }
                    if positions.contains(k) {
                        let i = choose|i: int| 0 <= i < positions.len() && positions[i] == k;
                        assert(before[i] == k);
                    }
                } else {
                    assert(positions[before.len() as int] == k);
                }
            }
            positions
        } else {
            assert forall|k: int| 0 <= k < all.len() implies (is_payload(#[trigger] all[k])
                <==> before.contains(k)) by {
                if k < front.len() {
                    assert(all[k] == front[k]);
                } else if before.contains(k) {
                    let i = choose|i: int| 0 <= i < before.len() && before[i] == k;
                    assert(before[i] < front.len());
                }
            }
            before
        }
    }
}

/// Lines that all belong to the reply are all kept.
proof fn lemma_filter_payload_only(kept: Seq<Seq<char>>)
    requires
        forall|i: int| 0 <= i < kept.len() ==> is_payload(#[trigger] kept[i]),
    ensures
        kept.filter(payload()) == kept,
    decreases kept.len(),
{
    if kept.len() == 0 {
        kept.lemma_filter_len(payload());
        assert(kept.filter(payload()) =~= kept);
    } else {
        let front = kept.drop_last();
        assert(kept =~= front.push(kept.last()));
        front.lemma_filter_push(kept.last(), payload());
        assert forall|i: int| 0 <= i < front.len() implies is_payload(#[trigger] front[i]) by {
            assert(front[i] == kept[i]);
        }
        lemma_filter_payload_only(front);
    }
}

/// Kept lines are lines of a reply: none is empty or `.`, none holds a line
/// feed.
proof fn lemma_kept_lines_are_lines(text: Seq<char>)
    ensures
        forall|i: int|
            0 <= i < kept_lines(text).len() ==> is_payload(#[trigger] kept_lines(text)[i]),
        forall|i: int|
            0 <= i < kept_lines(text).len() ==> unbroken(#[trigger] kept_lines(text)[i]),
{
    let kept = kept_lines(text);
    let positions = lemma_filter_positions(lines(text));
    lemma_lines_unbroken(text);
    assert forall|i: int| 0 <= i < kept.len() implies unbroken(#[trigger] kept[i]) by {
        assert(kept[i] == lines(text)[positions[i]]);
    }
}

/// Cleaning keeps the order of the lines: every kept line is a line of the
/// text that is neither empty nor `.`, every such line of the text is kept,
/// and the kept lines stand in the order in which the text holds them. The
/// result gives the position of each kept line among the lines of the text.
pub proof fn lemma_cleanup_keeps_order(text: Seq<char>) -> (positions: Seq<int>)
    ensures
        in_order_of(kept_lines(text), lines(text), positions),
        forall|i: int|
            0 <= i < kept_lines(text).len() ==> is_payload(#[trigger] kept_lines(text)[i]),
        forall|k: int|
            0 <= k < lines(text).len() ==> (is_payload(#[trigger] lines(text)[k])
                <==> positions.contains(k)),
{
    lemma_filter_positions(lines(text))
}

/// A text in which every line is empty or `.` cleans to the empty text,
/// and no other text does.
pub proof fn lemma_cleanup_empty(text: Seq<char>)
    ensures
        (forall|k: int| 0 <= k < lines(text).len() ==> !is_payload(#[trigger] lines(text)[k]))
            <==> cleanup(text) == Seq::<char>::empty(),
{
    let all = lines(text);
    let positions = lemma_filter_positions(all);
    let kept = kept_lines(text);
    lemma_joined_payload_empty(kept);
    if kept.len() > 0 {
        assert(is_payload(all[positions[0]]));
    }
    if exists|k: int| 0 <= k < all.len() && is_payload(#[trigger] all[k]) {
        let k = choose|k: int| 0 <= k < all.len() && is_payload(#[trigger] all[k]);
        assert(positions.contains(k));
    }
    assert(cleanup(text).len() == 0 <==> cleanup(text) =~= Seq::<char>::empty());
}

/// A cleaned reply neither begins nor ends with a line feed.
pub proof fn lemma_cleanup_is_trimmed(text: Seq<char>)
    ensures
        cleanup(text).len() > 0 ==> cleanup(text).first() != '\n' && cleanup(text).last() != '\n',
{
    let kept = kept_lines(text);
    lemma_kept_lines_are_lines(text);
    if kept.len() > 0 {
        let front = kept.drop_last();
        let last = kept.last();
        assert(kept =~= front.push(last));
        lemma_join_push(front, last, '\n');
        assert(is_payload(last) && unbroken(last));
        assert(is_payload(kept[0]) && unbroken(kept[0]));
        assert(cleanup(text).last() == last.last());
        if kept.len() > 1 {
            assert(cleanup(text).first() == kept[0].first());
        }
    }
}

/// The lines of a cleaned reply are the kept lines of the raw one, and
/// cleaning it once more changes nothing: for every `text` that is `settled`.
pub proof fn lemma_cleanup_idempotent(text: Seq<char>)
    requires
        settled(text),
    ensures
        lines(cleanup(text)) == kept_lines(text),
        cleanup(cleanup(text)) == cleanup(text),
{
    let kept = kept_lines(text);
    lemma_kept_lines_are_lines(text);
    assert forall|i: int| 0 <= i < kept.len() implies (#[trigger] kept[i]).len() > 0 by {
        assert(is_payload(kept[i]));
    }
    lemma_lines_of_join(kept);
    assert(rejoined(kept) =~= kept);
    lemma_filter_payload_only(kept);
}

/// One more part makes a joined text longer by the part, and by a separator
/// where it is not the first.
proof fn lemma_joined_len_push(parts: Seq<Seq<char>>, part: Seq<char>)
    ensures
        joined_len(parts) >= 0,
        joined_len(parts.push(part)) == if parts.len() == 0 {
            part.len() as int
        } else {
            joined_len(parts) + 1 + part.len()
        },
{
    lemma_join_push(parts, part, '\n');
    lemma_join_len(parts, '\n');
    lemma_join_len(parts.push(part), '\n');
}

/// Dropping lines does not make the joined text longer.
proof fn lemma_filter_shortens(all: Seq<Seq<char>>)
    ensures
        joined_len(all.filter(payload())) <= joined_len(all),
    decreases all.len(),
{
    if all.len() == 0 {
        all.lemma_filter_len(payload());
        assert(all.filter(payload()) =~= all);
    } else {
        let front = all.drop_last();
        let last = all.last();
        assert(all =~= front.push(last));
        front.lemma_filter_push(last, payload());
        front.lemma_filter_len(payload());
        lemma_filter_shortens(front);
        lemma_joined_len_push(front, last);
        lemma_joined_len_push(front.filter(payload()), last);
    }
}

/// `line` ends in a carriage return.
spec fn ends_in_cr(line: Seq<char>) -> bool {
    line.len() > 0 && line.last() == '\r'
}

/// Every line of `all` without the carriage return that it ends in.
spec fn all_stripped(all: Seq<Seq<char>>) -> Seq<Seq<char>> {
    all.map_values(|line: Seq<char>| strip_cr(line))
}

/// Taking the carriage return off the end of every line does not make the
/// joined text longer, and makes it shorter where a line ends in one.
proof fn lemma_stripped_len(all: Seq<Seq<char>>)
    ensures
        joined_len(all_stripped(all)) <= joined_len(all),
        (exists|i: int| 0 <= i < all.len() && ends_in_cr(#[trigger] all[i])) ==> joined_len(
            all_stripped(all),
        ) < joined_len(all),
    decreases all.len(),
{
    if all.len() == 0 {
        assert(all_stripped(all) =~= all);
    } else {
        let front = all.drop_last();
        let last = all.last();
        assert(all =~= front.push(last));
        assert(all_stripped(all) =~= all_stripped(front).push(strip_cr(last)));
        lemma_stripped_len(front);
        lemma_joined_len_push(front, last);
        lemma_joined_len_push(all_stripped(front), strip_cr(last));
        if exists|i: int| 0 <= i < all.len() && ends_in_cr(#[trigger] all[i]) {
            let i = choose|i: int| 0 <= i < all.len() && ends_in_cr(#[trigger] all[i]);
            if i < front.len() {
                assert(front[i] == all[i]);
            }
        }
    }
}

/// Cleaning a cleaned reply once more does change it where `text` is not
/// `settled`: the carriage return that ends a kept line before the last is
/// then taken for part of a line terminator, and the text gets shorter.
pub proof fn lemma_cleanup_unsettled(text: Seq<char>)
    requires
        !settled(text),
    ensures
        cleanup(cleanup(text)).len() < cleanup(text).len(),
        cleanup(cleanup(text)) != cleanup(text),
{
    let kept = kept_lines(text);
    lemma_kept_lines_are_lines(text);
    assert forall|i: int| 0 <= i < kept.len() implies (#[trigger] kept[i]).len() > 0 by {
        assert(is_payload(kept[i]));
    }
    lemma_lines_of_join(kept);
    let i = choose|i: int| 0 <= i < kept.len() - 1 && (#[trigger] kept[i]).last() == '\r';
    let front = kept.drop_last();
    assert(kept =~= front.push(kept.last()));
    assert(rejoined(kept) =~= all_stripped(front).push(kept.last()));
    assert(front[i] == kept[i]);
    assert(ends_in_cr(front[i]));
    lemma_stripped_len(front);
    lemma_joined_len_push(front, kept.last());
    lemma_joined_len_push(all_stripped(front), kept.last());
    lemma_filter_shortens(rejoined(kept));
    lemma_join_len(kept, '\n');
    lemma_join_len(rejoined(kept).filter(payload()), '\n');
}

} // verus!
