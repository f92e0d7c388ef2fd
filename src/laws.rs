//! Properties that relate the reader's units to the fallback policy.
use vstd::prelude::*;

use crate::policy::{aggregate, blocking_outcome, bounded_outcome, is_blank, is_space, join_lines};
use crate::reader::{
    all_non_empty, complete_lines, partial_line, produced_at_end, split_lines,
    strip_carriage_return, stripped_lines, text_units, whole_units, Strategy, CARRIAGE_RETURN,
    NEWLINE,
};

verus! {

broadcast use vstd::seq_lib::group_seq_properties;

/// On an interactive source, a blocking read and a bounded read both hand
/// back the fallback, whatever the channel would have held.
pub proof fn interactive_source_gives_fallback(
    strategy: Strategy,
    first: Option<Seq<u8>>,
    drained: Seq<Seq<u8>>,
    fallback: Option<Seq<u8>>,
)
    ensures
        blocking_outcome(true, first, fallback) == fallback,
        bounded_outcome(true, strategy, drained, fallback) == fallback,
{
}

/// A flattened sequence of units is empty only when every unit is.
proof fn lemma_flatten_empty_units(units: Seq<Seq<u8>>)
    requires
        all_non_empty(units),
        units.flatten().len() == 0,
    ensures
        units.len() == 0,
{
    if units.len() > 0 {
        assert(units.flatten() == units[0] + units.drop_first().flatten());
        assert(units[0].len() > 0);
    }
}

/// Replacing the last line changes only the end of the joined text.
proof fn lemma_join_lines_push_last(lines: Seq<Seq<u8>>, x: u8)
    requires
        lines.len() >= 1,
    ensures
        join_lines(lines.update(lines.len() - 1, lines.last().push(x))) == join_lines(lines).push(x),
{
    let up = lines.update(lines.len() - 1, lines.last().push(x));
    assert(up.drop_last() =~= lines.drop_last());
    if lines.len() == 1 {
        assert(join_lines(up) == up[0]);
    } else {
        assert(join_lines(up) == join_lines(up.drop_last()) + seq![NEWLINE] + up.last());
        assert(join_lines(up) =~= join_lines(lines).push(x));
    }
}

/// The pieces between line feeds hold no line feed and, joined back with line
/// feeds, give the input.
proof fn lemma_split_lines_join(b: Seq<u8>)
    ensures
        split_lines(b).len() >= 1,
        join_lines(split_lines(b)) == b,
        forall|i: int|
            0 <= i < split_lines(b).len() ==> !(#[trigger] split_lines(b)[i]).contains(NEWLINE),
        is_blank(b) ==> forall|i: int|
            0 <= i < split_lines(b).len() ==> is_blank(#[trigger] split_lines(b)[i]),
    decreases b.len(),
{
    if b.len() == 0 {
        assert(split_lines(b) =~= seq![Seq::<u8>::empty()]);
        assert(b =~= Seq::<u8>::empty());
    } else {
        let prev = b.drop_last();
        let x = b.last();
        lemma_split_lines_join(prev);
        let rest = split_lines(prev);
        assert(prev.push(x) =~= b);
        if is_blank(b) {
            assert forall|i: int| 0 <= i < prev.len() implies is_space(#[trigger] prev[i]) by {
                assert(prev[i] == b[i]);
            }
        }
        if x == NEWLINE {
            let s = rest.push(Seq::empty());
            assert(s.drop_last() =~= rest);
            assert(join_lines(s) =~= join_lines(rest) + seq![NEWLINE] + Seq::<u8>::empty());
            assert(join_lines(s) =~= b);
            assert forall|i: int| 0 <= i < s.len() implies !(#[trigger] s[i]).contains(NEWLINE) by {
                if i < rest.len() {
                    assert(s[i] == rest[i]);
                } else {
                    assert(s[i] =~= Seq::<u8>::empty());
                }
            }
            if is_blank(b) {
                assert forall|i: int| 0 <= i < s.len() implies is_blank(#[trigger] s[i]) by {
                    if i < rest.len() {
                        assert(s[i] == rest[i]);
                    }
                }
            }
        } else {
            lemma_join_lines_push_last(rest, x);
            let s = rest.update(rest.len() - 1, rest.last().push(x));
            assert forall|i: int| 0 <= i < s.len() implies !(#[trigger] s[i]).contains(NEWLINE) by {
                if i < rest.len() - 1 {
                    assert(s[i] == rest[i]);
                } else {
                    let l = rest.last().push(x);
                    assert(!rest.last().contains(NEWLINE));
                    if l.contains(NEWLINE) {
                        let k = choose|k: int| 0 <= k < l.len() && l[k] == NEWLINE;
                        if k < rest.last().len() {
                            assert(rest.last()[k] == NEWLINE);
                        }
                    }
                }
            }
            if is_blank(b) {
                assert forall|i: int| 0 <= i < s.len() implies is_blank(#[trigger] s[i]) by {
                    if i < rest.len() - 1 {
                        assert(s[i] == rest[i]);
                    } else {
                        let l = rest.last().push(x);
                        assert(is_blank(rest[rest.len() - 1]));
                        assert forall|k: int| 0 <= k < l.len() implies is_space(#[trigger] l[k]) by {
                            if k < rest.last().len() {
                                assert(l[k] == rest.last()[k]);
                            } else {
                                assert(l[k] == b[b.len() - 1]);
                            }
                        }
                    }
                }
            }
        }
    }
}

/// Cutting the input into text lines loses, adds and reorders nothing: the
/// pieces between line feeds, joined back with line feeds, are the input, no
/// piece holds a line feed, and each text unit is such a piece with at most a
/// final carriage return dropped from a terminated line.
pub proof fn lines_keep_input_order(b: Seq<u8>)
    ensures
        join_lines(split_lines(b)) == b,
        forall|i: int|
            0 <= i < split_lines(b).len() ==> !(#[trigger] split_lines(b)[i]).contains(NEWLINE),
        text_units(b) == stripped_lines(b) + whole_units(partial_line(b)),
        forall|i: int|
            0 <= i < stripped_lines(b).len() ==> #[trigger] stripped_lines(b)[i]
                == strip_carriage_return(split_lines(b)[i]),
{
    lemma_split_lines_join(b);
}

/// With either binary strategy the units of a finished stream, back to back,
/// are exactly the bytes read: no byte is lost, added, changed or moved.
pub proof fn binary_units_keep_input(strategy: Strategy, input: Seq<u8>, units: Seq<Seq<u8>>)
    requires
        strategy != Strategy::Lines,
        produced_at_end(strategy, input, units),
    ensures
        aggregate(strategy, units) == input,
{
    if strategy == Strategy::WholeBuffer {
        if input.len() > 0 {
            seq![input].lemma_flatten_one_element();
        } else {
            assert(input =~= Seq::<u8>::empty());
        }
    }
}

/// Joining blank lines with line feeds gives blank text.
proof fn lemma_join_blank(lines: Seq<Seq<u8>>)
    requires
        forall|i: int| 0 <= i < lines.len() ==> is_blank(#[trigger] lines[i]),
    ensures
        is_blank(join_lines(lines)),
    decreases lines.len(),
{
    if lines.len() > 1 {
        let init = lines.drop_last();
        assert forall|i: int| 0 <= i < init.len() implies is_blank(#[trigger] init[i]) by {
            assert(init[i] == lines[i]);
        }
        lemma_join_blank(init);
        let j = join_lines(init) + seq![NEWLINE] + lines.last();
        assert(is_blank(lines[lines.len() - 1]));
        assert forall|k: int| 0 <= k < j.len() implies is_space(#[trigger] j[k]) by {
            if k < join_lines(init).len() {
                assert(j[k] == join_lines(init)[k]);
            } else if k == join_lines(init).len() {
                assert(j[k] == NEWLINE);
            } else {
                assert(j[k] == lines.last()[k - join_lines(init).len() - 1]);
            }
        }
    } else if lines.len() == 1 {
        assert(is_blank(lines[0]));
    }
}

/// The text units of blank input are blank.
proof fn lemma_text_units_blank(b: Seq<u8>)
    requires
        is_blank(b),
    ensures
        forall|i: int| 0 <= i < text_units(b).len() ==> is_blank(#[trigger] text_units(b)[i]),
{
    lemma_split_lines_join(b);
    let s = split_lines(b);
    let t = text_units(b);
    let st = stripped_lines(b);
    assert forall|i: int| 0 <= i < t.len() implies is_blank(#[trigger] t[i]) by {
        if i < st.len() {
            assert(st[i] == strip_carriage_return(complete_lines(b)[i]));
            assert(complete_lines(b)[i] == s[i]);
            assert(is_blank(s[i]));
            let l = s[i];
            assert forall|k: int| 0 <= k < t[i].len() implies is_space(#[trigger] t[i][k]) by {
                assert(t[i][k] == l[k]);
            }
        } else {
            assert(whole_units(partial_line(b)).len() == 1);
            assert(t[i] == partial_line(b));
            assert(is_blank(s[s.len() - 1]));
        }
    }
}

/// A bounded read on a source whose input is only white space (or nothing at
/// all) hands back the fallback, whatever the strategy.
pub proof fn blank_input_gives_fallback(
    strategy: Strategy,
    input: Seq<u8>,
    units: Seq<Seq<u8>>,
    fallback: Option<Seq<u8>>,
)
    requires
        is_blank(input),
        produced_at_end(strategy, input, units),
    ensures
        bounded_outcome(false, strategy, units, fallback) == fallback,
{
    if strategy == Strategy::Lines {
        lemma_text_units_blank(input);
        lemma_join_blank(units);
    } else {
        binary_units_keep_input(strategy, input, units);
    }
}

/// A bounded read on a source that ends at once hands back the fallback,
/// every time: the finished stream has no unit at all.
pub proof fn empty_source_gives_fallback(
    strategy: Strategy,
    units: Seq<Seq<u8>>,
    fallback: Option<Seq<u8>>,
)
    requires
        produced_at_end(strategy, Seq::empty(), units),
    ensures
        units.len() == 0,
        bounded_outcome(false, strategy, units, fallback) == fallback,
{
    blank_input_gives_fallback(strategy, Seq::empty(), units, fallback);
    match strategy {
        Strategy::Chunked => lemma_flatten_empty_units(units),
        Strategy::WholeBuffer => {},
        Strategy::Lines => {
            reveal_with_fuel(split_lines, 1);
            assert(stripped_lines(Seq::empty()) =~= Seq::empty());
        },
    }
}

/// A source that writes one line and closes gives that line as its only
/// text unit, and a blocking read hands it back.
pub proof fn one_line_then_close(line: Seq<u8>, fallback: Option<Seq<u8>>)
    requires
        !line.contains(NEWLINE),
        line.len() == 0 || line.last() != CARRIAGE_RETURN,
    ensures
        text_units(line.push(NEWLINE)) == seq![line],
        blocking_outcome(false, Some(line), fallback) == Some(line),
{
    lemma_split_lines_join(line);
    assert(split_lines(line) =~= seq![line]) by {
        lemma_split_lines_one_piece(line);
    }
    let b = line.push(NEWLINE);
    assert(b.drop_last() =~= line);
    assert(split_lines(b) == seq![line].push(Seq::<u8>::empty()));
    assert(complete_lines(b) =~= seq![line]);
    assert(partial_line(b) =~= Seq::<u8>::empty());
    assert(stripped_lines(b) =~= seq![line]);
    assert(text_units(b) =~= seq![line]);
}

/// Bytes without a line feed are one piece.
proof fn lemma_split_lines_one_piece(b: Seq<u8>)
    requires
        !b.contains(NEWLINE),
    ensures
        split_lines(b) == seq![b],
    decreases b.len(),
{
    if b.len() == 0 {
        assert(b =~= Seq::<u8>::empty());
    } else {
        let prev = b.drop_last();
        assert(!prev.contains(NEWLINE)) by {
            if prev.contains(NEWLINE) {
                let k = choose|k: int| 0 <= k < prev.len() && prev[k] == NEWLINE;
                assert(b[k] == NEWLINE);
            }
        }
        lemma_split_lines_one_piece(prev);
        assert(b.last() != NEWLINE) by {
            assert(b[b.len() - 1] == b.last());
        }
        assert(prev.push(b.last()) =~= b);
        assert(seq![prev].update(0, prev.push(b.last())) =~= seq![b]);
    }
}

} // verus!
