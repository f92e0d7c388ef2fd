//! What a read of the input hands back: the units received, or the fallback.
//!
//! A stream that ends before giving a byte counts as no input, as does one
//! that gives only white space to a bounded read: the fallback comes back,
//! and `None` where the caller gave no fallback. A caller that needs to tell
//! "no input" from a value passes no fallback and gets an `Option`.
use vstd::prelude::*;
use vstd::slice::slice_to_vec;

use crate::reader::{units_of, Strategy, NEWLINE};

verus! {

/// The contents of an optional byte buffer, as a sequence.
pub open spec fn opt_bytes(o: Option<Vec<u8>>) -> Option<Seq<u8>> {
    match o {
        Some(v) => Some(v@),
        None => None,
    }
}

/// The contents of an optional borrowed byte buffer, as a sequence.
pub open spec fn opt_slice(o: Option<&[u8]>) -> Option<Seq<u8>> {
    match o {
        Some(s) => Some(s@),
        None => None,
    }
}

/// What a blocking read returns: the first unit that arrived, or the
/// fallback when the source is interactive (nothing is read then) or the
/// stream closed without producing anything.
pub open spec fn blocking_outcome(
    interactive: bool,
    first: Option<Seq<u8>>,
    fallback: Option<Seq<u8>>,
) -> Option<Seq<u8>> {
    if interactive {
        fallback
    } else {
        match first {
            Some(unit) => Some(unit),
            None => fallback,
        }
    }
}

/// Copies an optional borrowed fallback into an owned buffer.
fn owned_fallback(fallback: Option<&[u8]>) -> (r: Option<Vec<u8>>)
    ensures
        opt_bytes(r) == opt_slice(fallback),
{
    match fallback {
        Some(s) => Some(slice_to_vec(s)),
        None => None,
    }
}

/// Decides what a blocking read hands back. `first` is the first unit that
/// the channel delivered, or `None` when it closed empty; it is ignored when
/// the source is interactive, since no read is made then.
pub fn resolve_blocking(interactive: bool, first: Option<Vec<u8>>, fallback: Option<&[u8]>) -> (r:
    Option<Vec<u8>>)
    ensures
        opt_bytes(r) == blocking_outcome(interactive, opt_bytes(first), opt_slice(fallback)),
{
    if interactive {
        return owned_fallback(fallback);
    }
    match first {
        Some(unit) => Some(unit),
        None => owned_fallback(fallback),
    }
}

/// A byte that `char::is_whitespace` counts as white space: space, tab, line
/// feed, vertical tab, form feed or carriage return.
pub open spec fn is_space(b: u8) -> bool {
    b == 32 || (9 <= b && b <= 13)
}

/// `b` holds nothing but white space (an empty `b` too).
pub open spec fn is_blank(b: Seq<u8>) -> bool {
    forall|i: int| 0 <= i < b.len() ==> is_space(#[trigger] b[i])
}

/// Lines joined with a line feed between each two.
pub open spec fn join_lines(lines: Seq<Seq<u8>>) -> Seq<u8>
    decreases lines.len(),
{
    if lines.len() == 0 {
        Seq::empty()
    } else if lines.len() == 1 {
        lines[0]
    } else {
        join_lines(lines.drop_last()) + seq![NEWLINE] + lines.last()
    }
}

/// All units received, as one value: lines joined with line feeds, binary
/// chunks back to back in the order they came.
pub open spec fn aggregate(strategy: Strategy, units: Seq<Seq<u8>>) -> Seq<u8> {
    match strategy {
        Strategy::Lines => join_lines(units),
        _ => units.flatten(),
    }
}

/// What a bounded read returns: the fallback when the source is interactive
/// (nothing is read or waited for then) or when what arrived within the wait
/// is blank; else everything that arrived.
pub open spec fn bounded_outcome(
    interactive: bool,
    strategy: Strategy,
    drained: Seq<Seq<u8>>,
    fallback: Option<Seq<u8>>,
) -> Option<Seq<u8>> {
    if interactive {
        fallback
    } else if is_blank(aggregate(strategy, drained)) {
        fallback
    } else {
        Some(aggregate(strategy, drained))
    }
}

/// Whether `b` holds nothing but white space.
pub fn is_blank_bytes(b: &[u8]) -> (r: bool)
    ensures
        r == is_blank(b@),
{
    let mut i: usize = 0;
    while i < b.len()
        invariant
            0 <= i <= b@.len(),
            is_blank(b@.subrange(0, i as int)),
        decreases b@.len() - i,
    {
        let x = b[i];
        if !(x == 32 || (9 <= x && x <= 13)) {
            assert(!is_space(b@[i as int]));
            return false;
        }
        assert(b@.subrange(0, i + 1) =~= b@.subrange(0, i as int).push(x));
        i = i + 1;
    }
    assert(b@.subrange(0, i as int) =~= b@);
    true
}

/// Appends the bytes of `src` to `dst`.
fn push_all(dst: &mut Vec<u8>, src: &Vec<u8>)
    ensures
        final(dst)@ == old(dst)@ + src@,
{
    let mut j: usize = 0;
    while j < src.len()
        invariant
            0 <= j <= src@.len(),
            dst@ == old(dst)@ + src@.subrange(0, j as int),
        decreases src@.len() - j,
    {
        dst.push(src[j]);
        assert(src@.subrange(0, j + 1) =~= src@.subrange(0, j as int).push(src@[j as int]));
        j = j + 1;
    }
    assert(src@.subrange(0, j as int) =~= src@);
}

/// All the units, as one value (see `aggregate`).
pub fn aggregate_units(strategy: Strategy, units: &Vec<Vec<u8>>) -> (r: Vec<u8>)
    ensures
        r@ == aggregate(strategy, units_of(units@)),
{
    let ghost all = units_of(units@);
    let mut r: Vec<u8> = Vec::new();
    let mut i: usize = 0;
    proof {
        assert(all.subrange(0, 0) =~= Seq::<Seq<u8>>::empty());
    }
    while i < units.len()
        invariant
            0 <= i <= units@.len(),
            all == units_of(units@),
            r@ == aggregate(strategy, all.subrange(0, i as int)),
        decreases units@.len() - i,
    {
        let ghost before = r@;
        let ghost done = all.subrange(0, i as int);
        if i > 0 {
            match strategy {
                Strategy::Lines => r.push(NEWLINE),
                _ => {},
            }
        }
        push_all(&mut r, &units[i]);
        proof {
            let next = all.subrange(0, i + 1);
            assert(next =~= done.push(all[i as int]));
            assert(next.drop_last() =~= done);
            done.lemma_flatten_push(all[i as int]);
            if i == 0 {
                assert(next.flatten() == all[0]) by {
                    next.lemma_flatten_one_element();
                }
            }
        }
        i = i + 1;
    }
    assert(all.subrange(0, i as int) =~= all);
    r
}

/// Decides what a bounded read hands back, from the units drained from the
/// channel once the short wait is over.
pub fn resolve_bounded(
    interactive: bool,
    strategy: Strategy,
    drained: &Vec<Vec<u8>>,
    fallback: Option<&[u8]>,
) -> (r: Option<Vec<u8>>)
    ensures
        opt_bytes(r) == bounded_outcome(interactive, strategy, units_of(drained@), opt_slice(fallback)),
{
    if interactive {
        return owned_fallback(fallback);
    }
    let all = aggregate_units(strategy, drained);
    if is_blank_bytes(all.as_slice()) {
        owned_fallback(fallback)
    } else {
        Some(all)
    }
}

} // verus!
