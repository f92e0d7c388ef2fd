//! The background reader's decisions, as a state machine.
//!
//! The worker that owns the input source performs one blocking read at a
//! time and reports what happened as a [`ReadEvent`]. [`Reader::on_read`]
//! answers with the units to push to the consumer, in order. The worker keeps
//! reading while [`Reader::wants_read`] holds; when a push fails because the
//! consumer is gone it calls [`Reader::on_consumer_gone`] and stops.
use vstd::prelude::*;

verus! {

broadcast use vstd::seq_lib::group_seq_properties;

/// The line feed byte, which ends a text line.
pub const NEWLINE: u8 = 10;

/// The carriage return byte, dropped from the end of a text line.
pub const CARRIAGE_RETURN: u8 = 13;

/// How the bytes of the input are cut into units.
#[derive(Clone, Copy, Debug, PartialEq, Eq, Structural)]
pub enum Strategy {
    /// Each read's bytes, as they come, one unit per non-empty read.
    Chunked,
    /// All bytes up to the end of the stream, as one unit.
    WholeBuffer,
    /// One unit per line, without its line terminator.
    Lines,
}

/// What one blocking read of the input source gave.
pub enum ReadEvent {
    /// The read returned these bytes.
    Bytes(Vec<u8>),
    /// The read returned no bytes: the stream has ended.
    EndOfStream,
    /// The read failed.
    Failed,
}

/// Where a reader stands.
#[derive(Clone, Copy, Debug, PartialEq, Eq, Structural)]
pub enum Phase {
    /// It waits for the result of the next read.
    Reading,
    /// The stream ended, or was never read because the source is interactive.
    Ended,
    /// A read failed; the stream is closed.
    Failed,
    /// The consumer went away; the stream is closed.
    Abandoned,
}

/// `b` as a single unit, or no unit at all when it is empty.
pub open spec fn whole_units(b: Seq<u8>) -> Seq<Seq<u8>> {
    if b.len() > 0 {
        seq![b]
    } else {
        Seq::empty()
    }
}

/// `b` cut at each line feed. The pieces hold no line feed, there is one
/// more piece than there are line feeds, and the last piece is what follows
/// the last line feed.
pub open spec fn split_lines(b: Seq<u8>) -> Seq<Seq<u8>>
    decreases b.len(),
{
    if b.len() == 0 {
        seq![Seq::empty()]
    } else {
        let rest = split_lines(b.drop_last());
        if b.last() == NEWLINE {
            rest.push(Seq::empty())
        } else {
            rest.update(rest.len() - 1, rest.last().push(b.last()))
        }
    }
}

/// The lines of `b` that a line feed ends, without that line feed.
pub open spec fn complete_lines(b: Seq<u8>) -> Seq<Seq<u8>> {
    split_lines(b).drop_last()
}

/// What follows the last line feed of `b` (all of `b` if it has none).
pub open spec fn partial_line(b: Seq<u8>) -> Seq<u8> {
    split_lines(b).last()
}

/// A complete line without a carriage return that ended it.
pub open spec fn strip_carriage_return(line: Seq<u8>) -> Seq<u8> {
    if line.len() > 0 && line.last() == CARRIAGE_RETURN {
        line.drop_last()
    } else {
        line
    }
}

/// Each complete line, without its terminator.
pub open spec fn stripped_lines(b: Seq<u8>) -> Seq<Seq<u8>> {
    complete_lines(b).map_values(|l: Seq<u8>| strip_carriage_return(l))
}

/// The text units of a whole stream: each complete line without its
/// terminator, then the unterminated rest, if there is any, as it is.
pub open spec fn text_units(b: Seq<u8>) -> Seq<Seq<u8>> {
    stripped_lines(b) + whole_units(partial_line(b))
}

/// The units of `v`, as sequences of bytes.
pub open spec fn units_of(v: Seq<Vec<u8>>) -> Seq<Seq<u8>> {
    v.map_values(|u: Vec<u8>| u@)
}

/// No unit of `units` is empty.
pub open spec fn all_non_empty(units: Seq<Seq<u8>>) -> bool {
    forall|i: int| 0 <= i < units.len() ==> (#[trigger] units[i]).len() > 0
}

/// The units that a reader with `strategy` has produced from `input` while the
/// stream is still open: nothing is lost, reordered or changed.
pub open spec fn produced_while_open(strategy: Strategy, input: Seq<u8>, units: Seq<Seq<u8>>) -> bool {
    match strategy {
        Strategy::Chunked => units.flatten() == input && all_non_empty(units),
        Strategy::WholeBuffer => units.len() == 0,
        Strategy::Lines => units == stripped_lines(input),
    }
}

/// The units that a reader with `strategy` has produced once `input` has
/// ended.
pub open spec fn produced_at_end(strategy: Strategy, input: Seq<u8>, units: Seq<Seq<u8>>) -> bool {
    match strategy {
        Strategy::Chunked => units.flatten() == input && all_non_empty(units),
        Strategy::WholeBuffer => units == whole_units(input),
        Strategy::Lines => units == text_units(input),
    }
}

/// `split_lines` always yields at least one piece.
proof fn lemma_split_lines_non_empty(b: Seq<u8>)
    ensures
        split_lines(b).len() >= 1,
    decreases b.len(),
{
    if b.len() > 0 {
        lemma_split_lines_non_empty(b.drop_last());
    }
}

/// How the lines of `b` change when one more byte is read.
proof fn lemma_split_lines_push(b: Seq<u8>, x: u8)
    ensures
        x == NEWLINE ==> complete_lines(b.push(x)) == complete_lines(b).push(partial_line(b))
            && partial_line(b.push(x)) == Seq::<u8>::empty(),
        x != NEWLINE ==> complete_lines(b.push(x)) == complete_lines(b) && partial_line(b.push(x))
            == partial_line(b).push(x),
{
    lemma_split_lines_non_empty(b);
    assert(b.push(x).drop_last() =~= b);
    let rest = split_lines(b);
    if x == NEWLINE {
        assert(rest.push(Seq::empty()).drop_last() =~= rest.drop_last().push(rest.last()));
    } else {
        let up = rest.update(rest.len() - 1, rest.last().push(x));
        assert(up.drop_last() =~= rest.drop_last());
    }
}

/// How the stripped complete lines change when one more byte is read.
proof fn lemma_stripped_lines_push(b: Seq<u8>, x: u8)
    ensures
        x == NEWLINE ==> stripped_lines(b.push(x)) == stripped_lines(b).push(
            strip_carriage_return(partial_line(b)),
        ),
        x != NEWLINE ==> stripped_lines(b.push(x)) == stripped_lines(b),
{
    lemma_split_lines_push(b, x);
    if x == NEWLINE {
        assert(stripped_lines(b.push(x)) =~= stripped_lines(b).push(
            strip_carriage_return(partial_line(b)),
        ));
    }
}

/// The background reader's state.
pub struct Reader {
    strategy: Strategy,
    phase: Phase,
    /// Bytes read but not yet handed out as a unit.
    pending: Vec<u8>,
    /// Every byte read so far.
    consumed: Ghost<Seq<u8>>,
    /// Every unit handed out so far, in order.
    emitted: Ghost<Seq<Seq<u8>>>,
}

impl Reader {
    /// How this reader cuts its input into units.
    pub closed spec fn strategy(self) -> Strategy {
        self.strategy
    }

    /// Where this reader stands.
    pub closed spec fn phase(self) -> Phase {
        self.phase
    }

    /// Every byte read from the source so far, in order.
    pub closed spec fn consumed(self) -> Seq<u8> {
        self.consumed@
    }

    /// Every unit handed out for the consumer so far, in order.
    pub closed spec fn emitted(self) -> Seq<Seq<u8>> {
        self.emitted@
    }

    /// How the units handed out relate to the bytes read, in each phase.
    pub open spec fn consistent(self) -> bool {
        match self.phase() {
            Phase::Reading | Phase::Failed => produced_while_open(
                self.strategy(),
                self.consumed(),
                self.emitted(),
            ),
            Phase::Ended => produced_at_end(self.strategy(), self.consumed(), self.emitted()),
            Phase::Abandoned => produced_while_open(
                self.strategy(),
                self.consumed(),
                self.emitted(),
            ) || produced_at_end(self.strategy(), self.consumed(), self.emitted()),
        }
    }

    /// The reader's internal invariant: its units are consistent with what
    /// it read, and the bytes it holds back are what the strategy has not
    /// handed out yet.
    pub closed spec fn wf(self) -> bool {
        &&& self.consistent()
        &&& if self.phase == Phase::Reading {
            match self.strategy {
                Strategy::Chunked => self.pending@.len() == 0,
                Strategy::WholeBuffer => self.pending@ == self.consumed@,
                Strategy::Lines => self.pending@ == partial_line(self.consumed@),
            }
        } else {
            self.pending@.len() == 0
        }
    }

    /// A reader for a new stream. On an interactive source it has ended
    /// before any read: the worker never touches the source.
    pub fn new(strategy: Strategy, interactive: bool) -> (r: Reader)
        ensures
            r.wf(),
            r.consistent(),
            r.strategy() == strategy,
            r.consumed() == Seq::<u8>::empty(),
            r.emitted() == Seq::<Seq<u8>>::empty(),
            r.phase() == (if interactive {
                Phase::Ended
            } else {
                Phase::Reading
            }),
    {
        proof {
            reveal_with_fuel(split_lines, 1);
            assert(stripped_lines(Seq::empty()) =~= Seq::empty());
            assert(text_units(Seq::empty()) =~= Seq::empty());
        }
        Reader {
            strategy,
            phase: if interactive {
                Phase::Ended
            } else {
                Phase::Reading
            },
            pending: Vec::new(),
            consumed: Ghost(Seq::empty()),
            emitted: Ghost(Seq::empty()),
        }
    }

    /// Whether the worker is to perform another read.
    pub fn wants_read(&self) -> (r: bool)
        ensures
            r == (self.phase() == Phase::Reading),
    {
        match self.phase {
            Phase::Reading => true,
            _ => false,
        }
    }
    /// Takes the result of one read and returns the units to push to the
    /// consumer, in order. Bytes keep the stream open; its end or a failure
    /// closes it. A failure hands out nothing more: a partial line or an
    /// unfinished whole buffer is dropped.
    pub fn on_read(&mut self, event: ReadEvent) -> (units: Vec<Vec<u8>>)
        requires
            old(self).wf(),
            old(self).phase() == Phase::Reading,
        ensures
            final(self).wf(),
            final(self).consistent(),
            final(self).strategy() == old(self).strategy(),
            final(self).emitted() == old(self).emitted() + units_of(units@),
            match event {
                ReadEvent::Bytes(b) => {
                    &&& final(self).phase() == Phase::Reading
                    &&& final(self).consumed() == old(self).consumed() + b@
                    &&& old(self).strategy() == Strategy::Chunked ==> units_of(units@)
                        == whole_units(b@)
                },
                ReadEvent::EndOfStream => {
                    &&& final(self).phase() == Phase::Ended
                    &&& final(self).consumed() == old(self).consumed()
                },
                ReadEvent::Failed => {
                    &&& final(self).phase() == Phase::Failed
                    &&& final(self).consumed() == old(self).consumed()
                    &&& units@.len() == 0
                },
            },
    {
        let mut units: Vec<Vec<u8>> = Vec::new();
        let ghost emitted_before = self.emitted@;
        match event {
            ReadEvent::Bytes(b) => {
                let ghost start = self.consumed@;
                let ghost bytes = b@;
                match self.strategy {
                    Strategy::Chunked => {
                        if b.len() > 0 {
                            units.push(b);
                            proof {
                                assert(units_of(units@) =~= seq![bytes]);
                                assert(emitted_before + units_of(units@) =~= emitted_before.push(
                                    bytes,
                                ));
                                emitted_before.lemma_flatten_push(bytes);
                            }
                        } else {
                            assert(units_of(units@) =~= Seq::empty());
                            assert(emitted_before + units_of(units@) =~= emitted_before);
                            assert(start + bytes =~= start);
                        }
                    },
                    Strategy::WholeBuffer => {
                        let mut b = b;
                        self.pending.append(&mut b);
                        assert(units_of(units@) =~= Seq::empty());
                    },
                    Strategy::Lines => {
                        let mut i: usize = 0;
                        while i < b.len()
                            invariant
                                0 <= i <= b.len(),
                                b@ == bytes,
                                self.strategy == Strategy::Lines,
                                self.phase == Phase::Reading,
                                self.consumed@ == start,
                                self.emitted@ == emitted_before,
                                self.pending@ == partial_line(start + bytes.subrange(0, i as int)),
                                emitted_before + units_of(units@) == stripped_lines(
                                    start + bytes.subrange(0, i as int),
                                ),
                            decreases b.len() - i,
                        {
                            let x = b[i];
                            let ghost read = start + bytes.subrange(0, i as int);
                            proof {
                                assert(start + bytes.subrange(0, i + 1) =~= read.push(x));
                                lemma_split_lines_push(read, x);
                                lemma_stripped_lines_push(read, x);
                            }
                            if x == NEWLINE {
                                let mut line: Vec<u8> = Vec::new();
                                std::mem::swap(&mut self.pending, &mut line);
                                if line.len() > 0 && line[line.len() - 1] == CARRIAGE_RETURN {
                                    line.pop();
                                }
                                assert(line@ == strip_carriage_return(partial_line(read)));
                                let ghost units_before = units@;
                                units.push(line);
                                assert(units_of(units@) =~= units_of(units_before).push(line@));
                            } else {
                                self.pending.push(x);
                            }
                            i = i + 1;
                        }
                        assert(bytes.subrange(0, b.len() as int) =~= bytes);
                    },
                }
                self.consumed = Ghost(start + bytes);
            },
            ReadEvent::EndOfStream => {
                self.phase = Phase::Ended;
                match self.strategy {
                    Strategy::Chunked => {},
                    _ => {
                        let mut rest: Vec<u8> = Vec::new();
                        std::mem::swap(&mut self.pending, &mut rest);
                        let ghost tail = rest@;
                        if rest.len() > 0 {
                            units.push(rest);
                        }
                        assert(units_of(units@) =~= whole_units(tail));
                        assert(emitted_before + units_of(units@) =~= emitted_before + whole_units(
                            tail,
                        ));
                        assert(self.strategy == Strategy::Lines ==> emitted_before + whole_units(
                            tail,
                        ) == text_units(self.consumed@));
                    },
                }
            },
            ReadEvent::Failed => {
                self.phase = Phase::Failed;
                self.pending = Vec::new();
            },
        }
        self.emitted = Ghost(emitted_before + units_of(units@));
        units
    }

    /// Records that the consumer went away: the reader stops, and the worker
    /// performs no further read.
    pub fn on_consumer_gone(&mut self)
        requires
            old(self).wf(),
        ensures
            final(self).wf(),
            final(self).consistent(),
            final(self).phase() == Phase::Abandoned,
            final(self).strategy() == old(self).strategy(),
            final(self).consumed() == old(self).consumed(),
            final(self).emitted() == old(self).emitted(),
    {
        self.phase = Phase::Abandoned;
        self.pending = Vec::new();
    }
}

} // verus!
