//! The streaming loader: a pull-based state machine that consumes a
//! line-oriented source one unit at a time, optionally splits each unit,
//! buffers the pieces in a FIFO queue, and delivers them as `Document`
//! values in strict source order. Reading the source is the driver's job;
//! the stream decides, from its state and each read outcome, what to
//! buffer, what to deliver, and when to terminate.

use std::collections::VecDeque;
use vstd::prelude::*;

use crate::schemas::Document;
use crate::text_splitter::{TextSplitter, TextSplitterError};

verus! {

/// Why loading failed.
#[derive(Debug)]
pub enum LoaderError {
    /// The source could not be acquired at construction time; fatal,
    /// surfaced before any pull.
    Open(String),
    /// An I/O failure while reading mid-stream; fatal to the stream.
    Read(String),
    /// The configured splitter rejected a unit; fatal to the stream.
    Split(TextSplitterError),
}

/// The outcome of one attempt to read the next atomic unit (one line)
/// from the source.
#[derive(Debug)]
pub enum ReadEvent {
    /// A unit of text was read.
    Line(String),
    /// The source yielded no data: end of the source.
    Eof,
    /// Reading failed.
    Failure(String),
}

/// What one turn of the pull protocol produced.
#[derive(Debug)]
pub enum Step {
    /// The next document, in source order.
    Item(Document),
    /// A fatal error, delivered exactly once; afterwards the stream is
    /// terminal.
    Error(LoaderError),
    /// End of the sequence; every later pull repeats it.
    Finished,
    /// The buffer is empty and the source is not known to be exhausted:
    /// the driver must read one unit and hand the outcome to `on_read`.
    NeedRead,
}

/// The lifecycle phase of a stream: pulling, or terminated for good.
#[derive(Clone, Copy, Debug)]
enum Phase {
    /// Buffering and reading still happen.
    Active,
    /// The source was exhausted; terminal.
    Done,
    /// An unrecoverable read or split error occurred; terminal.
    Failed,
}

/// The pieces one read unit contributes downstream: what the splitter
/// makes of it, or the unit itself when no splitter is configured.
pub open spec fn pieces_of<TS: TextSplitter>(sp: Option<TS>, unit: Seq<char>) -> Seq<Seq<char>> {
    match sp {
        Some(s) => s.spec_split(unit),
        None => seq![unit],
    }
}

/// Whether the configured splitter accepts the unit; absent a splitter,
/// every unit is accepted.
pub open spec fn accepts_unit<TS: TextSplitter>(sp: Option<TS>, unit: Seq<char>) -> bool {
    match sp {
        Some(s) => s.split_ok(unit),
        None => true,
    }
}

/// Everything a sequence of consumed units is to produce, in order: the
/// flattening of each unit's pieces.
pub open spec fn expected_of<TS: TextSplitter>(
    sp: Option<TS>,
    units: Seq<Seq<char>>,
) -> Seq<Seq<char>> {
    units.flat_map(|u: Seq<char>| pieces_of(sp, u))
}

/// Consuming one more unit appends exactly that unit's pieces to what is
/// expected.
proof fn lemma_expected_push<TS: TextSplitter>(sp: Option<TS>, units: Seq<Seq<char>>, u: Seq<char>)
    ensures
        expected_of(sp, units.push(u)) == expected_of(sp, units) + pieces_of(sp, u),
{
    units.lemma_flat_map_push(|x: Seq<char>| pieces_of(sp, x), u);
}

/// With no splitter, what is expected is the units themselves.
proof fn lemma_expected_identity<TS: TextSplitter>(units: Seq<Seq<char>>)
    ensures
        expected_of::<TS>(None, units) == units,
    decreases units.len(),
{
    if units.len() == 0 {
        assert(expected_of::<TS>(None, units) =~= units);
    } else {
        lemma_expected_identity::<TS>(units.drop_last());
        lemma_expected_push::<TS>(None, units.drop_last(), units.last());
        assert(units.drop_last().push(units.last()) =~= units);
        assert(expected_of::<TS>(None, units) =~= units);
    }
}

/// Owns the path of a line-oriented text source; a collaborator resolves
/// and opens the path, then drives a `TxtLoaderStream` over it.
pub struct TxtLoader {
    filepath: String,
}

impl TxtLoader {
    /// The configured source path.
    pub closed spec fn spec_filepath(&self) -> Seq<char> {
        self.filepath@
    }

    /// A loader with no path configured yet.
    pub fn new() -> (r: TxtLoader)
        ensures
            r.spec_filepath() == Seq::<char>::empty(),
    {
        TxtLoader { filepath: String::new() }
    }

    /// Points the loader at a source path.
    pub fn with_filepath(self, filepath: &str) -> (r: TxtLoader)
        ensures
            r.spec_filepath() == filepath@,
    {
        let mut loader = self;
        loader.filepath = filepath.to_owned();
        loader
    }

    /// The configured source path, for the collaborator that opens it.
    pub fn filepath(&self) -> (r: &str)
        ensures
            r@ == self.spec_filepath(),
    {
        self.filepath.as_str()
    }
}

/// The operative entity: the optional splitting strategy, the FIFO queue
/// of pending documents, and the lifecycle phase, together with the ghost
/// record of what was consumed and what was delivered. The driver owns the
/// readable source exclusively and feeds read outcomes in through
/// `on_read`; the stream never sees the source itself.
pub struct TxtLoaderStream<TS: TextSplitter> {
    splitter: Option<TS>,
    memory_queue: VecDeque<Document>,
    phase: Phase,
    consumed: Ghost<Seq<Seq<char>>>,
    emitted: Ghost<Seq<Seq<char>>>,
}

impl<TS: TextSplitter> TxtLoaderStream<TS> {
    /// The configured splitter, if any.
    pub closed spec fn spec_splitter(&self) -> Option<TS> {
        self.splitter
    }

    /// The contents of the buffered documents, front of the queue first.
    pub closed spec fn queued(&self) -> Seq<Seq<char>> {
        self.memory_queue@.map_values(|d: Document| d.content@)
    }

    /// The units read from the source so far whose pieces were kept (a
    /// unit whose split failed is discarded, not recorded).
    pub closed spec fn consumed_units(&self) -> Seq<Seq<char>> {
        self.consumed@
    }

    /// The contents of the documents delivered so far, in delivery order.
    pub closed spec fn emitted_contents(&self) -> Seq<Seq<char>> {
        self.emitted@
    }

    /// Still pulling: neither exhausted nor failed.
    pub closed spec fn is_active(&self) -> bool {
        self.phase is Active
    }

    /// Terminated cleanly: the source was exhausted.
    pub closed spec fn is_done(&self) -> bool {
        self.phase is Done
    }

    /// Terminated by an unrecoverable read or split error.
    pub closed spec fn is_failed(&self) -> bool {
        self.phase is Failed
    }

    /// The pieces one unit contributes under this stream's splitter.
    pub open spec fn unit_pieces(&self, unit: Seq<char>) -> Seq<Seq<char>> {
        pieces_of(self.spec_splitter(), unit)
    }

    /// Whether this stream's splitter accepts the unit.
    pub open spec fn accepts(&self, unit: Seq<char>) -> bool {
        accepts_unit(self.spec_splitter(), unit)
    }

    /// Everything the consumed units are to produce, in source order.
    pub open spec fn expected_contents(&self) -> Seq<Seq<char>> {
        expected_of(self.spec_splitter(), self.consumed_units())
    }

    /// Every buffered document still has empty metadata.
    pub closed spec fn queue_metadata_empty(&self) -> bool {
        forall|i: int|
            0 <= i < self.memory_queue@.len() ==> (#[trigger] self.memory_queue@[i]).metadata@.len()
                == 0
    }

    /// The stream invariant: the splitter, if any, is usable; what was
    /// delivered followed by what is buffered is exactly what the
    /// consumed units produce, in order (the queue is never reordered);
    /// a terminal stream buffers nothing; and buffered documents carry
    /// empty metadata.
    pub open spec fn wf(&self) -> bool {
        &&& (self.spec_splitter() matches Some(sp) ==> sp.valid())
        &&& self.emitted_contents() + self.queued() == self.expected_contents()
        &&& (!self.is_active() ==> self.queued().len() == 0)
        &&& self.queue_metadata_empty()
    }

    /// A fresh stream with no splitter: identity passthrough, one
    /// document per read unit.
    pub fn new() -> (r: Self)
        ensures
            r.wf(),
            r.is_active(),
            r.spec_splitter() is None,
            r.consumed_units() == Seq::<Seq<char>>::empty(),
            r.emitted_contents() == Seq::<Seq<char>>::empty(),
            r.queued() == Seq::<Seq<char>>::empty(),
    {
        let s = TxtLoaderStream {
            splitter: None,
            memory_queue: VecDeque::new(),
            phase: Phase::Active,
            consumed: Ghost(Seq::empty()),
            emitted: Ghost(Seq::empty()),
        };
        proof {
            assert(s.queued() =~= Seq::<Seq<char>>::empty());
            assert(s.expected_contents() =~= Seq::<Seq<char>>::empty());
        }
        s
    }

    /// Installs a splitting strategy on a stream that has not consumed
    /// anything yet; every unit read afterwards is split before delivery.
    pub fn with_splitter(self, splitter_ptr: Box<TS>) -> (r: Self)
        requires
            self.wf(),
            self.is_active(),
            self.consumed_units().len() == 0,
            self.emitted_contents().len() == 0,
            self.queued().len() == 0,
            splitter_ptr.valid(),
        ensures
            r.wf(),
            r.is_active(),
            r.spec_splitter() == Some(*splitter_ptr),
            r.consumed_units() == Seq::<Seq<char>>::empty(),
            r.emitted_contents() == Seq::<Seq<char>>::empty(),
            r.queued() == Seq::<Seq<char>>::empty(),
    {
        let mut stream = self;
        stream.splitter = Some(*splitter_ptr);
        proof {
            assert(stream.consumed_units() =~= Seq::<Seq<char>>::empty());
            assert(stream.expected_contents() =~= Seq::<Seq<char>>::empty());
        }
        stream
    }

    /// One pull while no read is pending. A terminal stream repeats its
    /// terminal signal, unchanged, forever; a non-empty buffer yields its
    /// front document; an empty buffer demands one read from the driver.
    pub fn poll_next(&mut self) -> (r: Step)
        requires
            old(self).wf(),
        ensures
            final(self).wf(),
            final(self).spec_splitter() == old(self).spec_splitter(),
            final(self).consumed_units() == old(self).consumed_units(),
            (old(self).is_done() || old(self).is_failed()) ==> (r is Finished && *final(self)
                == *old(self)),
            (old(self).is_active() && old(self).queued().len() == 0) ==> (r is NeedRead
                && *final(self) == *old(self)),
            (old(self).is_active() && old(self).queued().len() > 0) ==> ({
                &&& r matches Step::Item(d) && d.content@ == old(self).queued()[0]
                    && d.metadata@.len() == 0
                &&& final(self).is_active()
                &&& final(self).queued() == old(self).queued().drop_first()
                &&& final(self).emitted_contents() == old(self).emitted_contents().push(
                    old(self).queued()[0],
                )
            }),
    {
        match self.phase {
            Phase::Done => Step::Finished,
            Phase::Failed => Step::Finished,
            Phase::Active => {
                if self.memory_queue.len() == 0 {
                    proof {
                        assert(self.queued() =~= Seq::<Seq<char>>::empty());
                    }
                    Step::NeedRead
                } else {
                    let d = self.memory_queue.pop_front().unwrap();
                    proof {
                        self.emitted@ = self.emitted@.push(d.content@);
                        assert(self.queued() =~= old(self).queued().drop_first());
                        assert(d.content@ == old(self).queued()[0]);
                        assert(self.emitted_contents() + self.queued() =~= old(
                            self,
                        ).emitted_contents() + old(self).queued());
                    }
                    Step::Item(d)
                }
            },
        }
    }

    /// One pull's read handling: the driver read one unit (or hit the
    /// end of the source, or failed) and hands the outcome in. End of
    /// source terminates the stream cleanly; a read failure terminates it
    /// with that error; a unit is split (or passed through whole), its
    /// pieces are buffered in order, and the first piece is delivered —
    /// unless there are none, in which case the driver must read again.
    /// A unit whose split fails is discarded and the stream terminates
    /// with the splitter's error.
    pub fn on_read(&mut self, event: ReadEvent) -> (r: Step)
        requires
            old(self).wf(),
            old(self).is_active(),
            old(self).queued().len() == 0,
        ensures
            final(self).wf(),
            final(self).spec_splitter() == old(self).spec_splitter(),
            (event is Eof ==> {
                &&& r is Finished
                &&& final(self).is_done()
                &&& final(self).consumed_units() == old(self).consumed_units()
                &&& final(self).emitted_contents() == old(self).emitted_contents()
            }),
            (event matches ReadEvent::Failure(m) ==> {
                &&& r matches Step::Error(e) && e matches LoaderError::Read(m2) && m2 == m
                &&& final(self).is_failed()
                &&& final(self).consumed_units() == old(self).consumed_units()
                &&& final(self).emitted_contents() == old(self).emitted_contents()
            }),
            (event matches ReadEvent::Line(u) ==> {
                if old(self).accepts(u@) {
                    let pieces = old(self).unit_pieces(u@);
                    &&& final(self).is_active()
                    &&& final(self).consumed_units() == old(self).consumed_units().push(u@)
                    &&& if pieces.len() == 0 {
                        &&& r is NeedRead
                        &&& final(self).queued().len() == 0
                        &&& final(self).emitted_contents() == old(self).emitted_contents()
                    } else {
                        &&& r matches Step::Item(d) && d.content@ == pieces[0]
                            && d.metadata@.len() == 0
                        &&& final(self).queued() == pieces.drop_first()
                        &&& final(self).emitted_contents() == old(self).emitted_contents().push(
                            pieces[0],
                        )
                    }
                } else {
                    &&& r matches Step::Error(e) && e is Split
                    &&& final(self).is_failed()
                    &&& final(self).consumed_units() == old(self).consumed_units()
                    &&& final(self).emitted_contents() == old(self).emitted_contents()
                }
            }),
    {
        match event {
            ReadEvent::Eof => {
                self.phase = Phase::Done;
                Step::Finished
            },
            ReadEvent::Failure(m) => {
                self.phase = Phase::Failed;
                Step::Error(LoaderError::Read(m))
            },
            ReadEvent::Line(line) => {
                let ghost u = line@;
                if self.splitter.is_none() {
                    proof {
                        self.consumed@ = self.consumed@.push(u);
                        self.emitted@ = self.emitted@.push(u);
                        lemma_expected_push(self.spec_splitter(), old(self).consumed_units(), u);
                        assert(old(self).emitted_contents() + old(self).queued() =~= old(
                            self,
                        ).emitted_contents());
                        assert(self.emitted_contents() + self.queued() =~= self.expected_contents());
                    }
                    return Step::Item(Document::new(line));
                }
                let res = self.splitter.as_ref().unwrap().split_text(line.as_str());
                match res {
                    Err(e) => {
                        self.phase = Phase::Failed;
                        Step::Error(LoaderError::Split(e))
                    },
                    Ok(pieces) => {
                        let ghost pieces_view = pieces@.map_values(|p: String| p@);
                        proof {
                            self.consumed@ = self.consumed@.push(u);
                            lemma_expected_push(
                                self.spec_splitter(),
                                old(self).consumed_units(),
                                u,
                            );
                            assert(pieces_view == old(self).unit_pieces(u));
                        }
                        let mut rest = pieces;
                        while rest.len() > 0
                            invariant
                                self.splitter == old(self).splitter,
                                self.phase is Active,
                                self.consumed@ == old(self).consumed_units().push(u),
                                self.emitted@ == old(self).emitted_contents(),
                                self.memory_queue@.map_values(|d: Document| d.content@)
                                    + rest@.map_values(|p: String| p@) == pieces_view,
                                self.queue_metadata_empty(),
                            decreases rest.len(),
                        {
                            let ghost q0 = self.memory_queue@.map_values(|d: Document| d.content@);
                            let ghost r0 = rest@.map_values(|p: String| p@);
                            let p = rest.remove(0);
                            let d = Document::new(p);
                            self.memory_queue.push_back(d);
                            proof {
                                assert(self.memory_queue@.map_values(|d: Document| d.content@)
                                    =~= q0.push(r0[0]));
                                assert(rest@.map_values(|p: String| p@) =~= r0.drop_first());
                                assert(self.memory_queue@.map_values(|d: Document| d.content@)
                                    + rest@.map_values(|p: String| p@) =~= q0 + r0);
                            }
                        }
                        proof {
                            assert(rest@.map_values(|p: String| p@) =~= Seq::<Seq<char>>::empty());
                            assert(self.queued() =~= pieces_view);
                        }
                        match self.memory_queue.pop_front() {
                            None => {
                                proof {
                                    assert(pieces_view.len() == 0);
                                    assert(self.queued() =~= Seq::<Seq<char>>::empty());
                                    assert(self.emitted_contents() + self.queued()
                                        =~= self.expected_contents());
                                }
                                Step::NeedRead
                            },
                            Some(d) => {
                                proof {
                                    self.emitted@ = self.emitted@.push(d.content@);
                                    assert(d.content@ == pieces_view[0]);
                                    assert(self.queued() =~= pieces_view.drop_first());
                                    assert(self.emitted_contents() + self.queued() =~= old(
                                        self,
                                    ).emitted_contents() + pieces_view);
                                }
                                Step::Item(d)
                            },
                        }
                    },
                }
            },
        }
    }
}

/// Order preservation: a stream that has terminated — cleanly or by
/// failure — has delivered exactly the flattening of what its splitter
/// made of each consumed unit, in source order, nothing held back and
/// nothing reordered.
pub proof fn lemma_order_preservation<TS: TextSplitter>(s: &TxtLoaderStream<TS>)
    requires
        s.wf(),
        !s.is_active(),
    ensures
        s.emitted_contents() == s.expected_contents(),
{
    assert(s.emitted_contents() + s.queued() =~= s.emitted_contents());
}

/// Identity passthrough: with no splitter configured, a terminated stream
/// has delivered exactly the units it consumed, one document per unit,
/// contents unmodified.
pub proof fn lemma_identity_passthrough<TS: TextSplitter>(s: &TxtLoaderStream<TS>)
    requires
        s.wf(),
        !s.is_active(),
        s.spec_splitter() is None,
    ensures
        s.emitted_contents() == s.consumed_units(),
{
    lemma_order_preservation(s);
    lemma_expected_identity::<TS>(s.consumed_units());
}

} // verus!
