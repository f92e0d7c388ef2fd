//! Text units: lines decoded as UTF-8, a malformed line skipped.
use vstd::prelude::*;

use crate::reader::units_of;

verus! {

/// The text that `b` encodes as UTF-8, or `None` when `b` is not valid
/// UTF-8.
pub uninterp spec fn utf8_text(b: Seq<u8>) -> Option<Seq<char>>;

/// The characters of an optional string.
pub open spec fn opt_text(o: Option<String>) -> Option<Seq<char>> {
    match o {
        Some(s) => Some(s@),
        None => None,
    }
}

/// Relies on `String::from_utf8`: the string whose bytes are `bytes` when
/// they are valid UTF-8, else an error; the outcome depends on the bytes
/// alone, and no bytes decode to the empty string.
#[verifier::external_body]
fn decode_utf8(bytes: &[u8]) -> (r: Option<String>)
    ensures
        opt_text(r) == utf8_text(bytes@),
        bytes@.len() == 0 ==> opt_text(r) == Some(Seq::<char>::empty()),
{
    String::from_utf8(bytes.to_vec()).ok()
}

/// The texts that decoded, in their order; the units that did not are left
/// out.
pub open spec fn kept_texts(decoded: Seq<Option<Seq<char>>>) -> Seq<Seq<char>>
    decreases decoded.len(),
{
    if decoded.len() == 0 {
        Seq::empty()
    } else {
        let init = kept_texts(decoded.drop_last());
        match decoded.last() {
            Some(t) => init.push(t),
            None => init,
        }
    }
}

/// The characters of each string.
pub open spec fn texts_of(v: Seq<String>) -> Seq<Seq<char>> {
    v.map_values(|s: String| s@)
}

/// The characters of each optional string.
pub open spec fn opt_texts_of(v: Seq<Option<String>>) -> Seq<Option<Seq<char>>> {
    v.map_values(|o: Option<String>| opt_text(o))
}

/// The outcome of decoding each unit.
pub open spec fn decoded_units(units: Seq<Seq<u8>>) -> Seq<Option<Seq<char>>> {
    units.map_values(|u: Seq<u8>| utf8_text(u))
}

/// Keeps, in order, the texts of the units that decoded.
pub fn keep_decoded(decoded: &Vec<Option<String>>) -> (r: Vec<String>)
    ensures
        texts_of(r@) == kept_texts(opt_texts_of(decoded@)),
{
    let ghost all = opt_texts_of(decoded@);
    let mut r: Vec<String> = Vec::new();
    let mut i: usize = 0;
    proof {
        assert(all.subrange(0, 0) =~= Seq::<Option<Seq<char>>>::empty());
        assert(texts_of(r@) =~= Seq::empty());
    }
    while i < decoded.len()
        invariant
            0 <= i <= decoded@.len(),
            all == opt_texts_of(decoded@),
            texts_of(r@) == kept_texts(all.subrange(0, i as int)),
        decreases decoded@.len() - i,
    {
        let ghost before = r@;
        proof {
            assert(all.subrange(0, i + 1).drop_last() =~= all.subrange(0, i as int));
        }
        match &decoded[i] {
            Some(s) => {
                r.push(s.clone());
                assert(texts_of(r@) =~= texts_of(before).push(s@));
            },
            None => {},
        }
        i = i + 1;
    }
    assert(all.subrange(0, i as int) =~= all);
    r
}

/// Decodes each line unit as UTF-8 and keeps, in order, those that decoded:
/// a malformed line is skipped, the others are kept.
pub fn decode_lines(units: &Vec<Vec<u8>>) -> (r: Vec<String>)
    ensures
        texts_of(r@) == kept_texts(decoded_units(units_of(units@))),
{
    let mut decoded: Vec<Option<String>> = Vec::new();
    let mut i: usize = 0;
    while i < units.len()
        invariant
            0 <= i <= units@.len(),
            opt_texts_of(decoded@) == decoded_units(units_of(units@)).subrange(0, i as int),
        decreases units@.len() - i,
    {
        let ghost before = decoded@;
        let d = decode_utf8(units[i].as_slice());
        decoded.push(d);
        assert(opt_texts_of(decoded@) =~= opt_texts_of(before).push(opt_text(d)));
        assert(decoded_units(units_of(units@)).subrange(0, i + 1) =~= decoded_units(
            units_of(units@),
        ).subrange(0, i as int).push(utf8_text(units@[i as int]@)));
        i = i + 1;
    }
    assert(decoded_units(units_of(units@)).subrange(0, i as int) =~= decoded_units(units_of(units@)));
    keep_decoded(&decoded)
}

} // verus!
