use vstd::prelude::*;

verus! {

/// One operation a sink was asked to perform, as its log remembers it: an
/// accepted write with exactly the characters handed over, an accepted
/// flush, or a refused operation carrying the sink's own description of the
/// refusal. A refused operation leaves no characters behind.
pub enum SinkOp {
    Write(Seq<char>),
    Flush,
    Refused(Seq<char>),
}

/// The event a successful write of the characters `s` leaves in a sink's log.
pub open spec fn write_ev(s: Seq<char>) -> SinkOp {
    SinkOp::Write(s)
}

/// The event a successful flush leaves in a sink's log.
pub open spec fn flush_ev() -> SinkOp {
    SinkOp::Flush
}

/// The event a refused operation leaves in a sink's log: the message of the
/// error the sink returned for it.
pub open spec fn refused_ev(msg: Seq<char>) -> SinkOp {
    SinkOp::Refused(msg)
}

/// The characters one logged operation contributed to the output: a write's
/// payload; nothing for a flush or a refusal.
pub open spec fn chars_of(op: SinkOp) -> Seq<char> {
    match op {
        SinkOp::Write(s) => s,
        SinkOp::Flush => Seq::<char>::empty(),
        SinkOp::Refused(_) => Seq::<char>::empty(),
    }
}

/// The characters a sink has accepted so far: the payloads of all events of
/// `log`, in order.
pub open spec fn out_of(log: Seq<SinkOp>) -> Seq<char>
    decreases log.len(),
{
    if log.len() == 0 {
        Seq::<char>::empty()
    } else {
        out_of(log.drop_last()) + chars_of(log.last())
    }
}

/// The one error of this library: a sink refused a write or a flush. It
/// carries the destination's own description of the failure.
#[derive(Debug)]
pub struct SinkError {
    pub msg: String,
}

impl Clone for SinkError {
    fn clone(&self) -> (r: Self)
        ensures
            r.msg@ == self.msg@,
    {
        SinkError { msg: self.msg.clone() }
    }
}

/// A writable destination.
///
/// A sink is modelled by a log of events: each accepted write appends a
/// `write_ev` with exactly the characters handed to it, each accepted flush
/// appends a `flush_ev`, and a refused operation appends a `refused_ev` with
/// the message of the error returned — so a failure leaves a trace, and an
/// error in a caller's hand is always a refusal the log shows. Whether any
/// particular operation is accepted is the destination's own affair, except
/// that a sink claiming `accepts_all` refuses nothing, ever.
pub trait Sink: Sized {
    /// The events this sink has accepted or refused so far, oldest first.
    /// Every sink this library reasons about overrides this with its own
    /// model; the empty default only spares destinations outside that
    /// reasoning, such as a raw output stream, from naming a model of their
    /// own.
    open spec fn log(&self) -> Seq<SinkOp> {
        Seq::<SinkOp>::empty()
    }

    /// Whether this destination accepts every operation, always — true of an
    /// in-memory buffer, never claimable for a real stream. The cautious
    /// default is false; a sink that promises more overrides it.
    open spec fn accepts_all(&self) -> bool {
        false
    }

    /// Accept the characters of `s`, or refuse them, leave no characters and
    /// log the refusal.
    fn write_str(&mut self, s: &str) -> (r: Result<(), SinkError>)
        ensures
            r is Ok ==> final(self).log() == old(self).log().push(write_ev(s@)),
            r matches Err(e) ==> final(self).log() == old(self).log().push(refused_ev(e.msg@)),
            old(self).accepts_all() ==> r is Ok,
            final(self).accepts_all() == old(self).accepts_all(),
    ;

    /// Flush the destination, or refuse, change nothing and log the refusal.
    fn flush(&mut self) -> (r: Result<(), SinkError>)
        ensures
            r is Ok ==> final(self).log() == old(self).log().push(flush_ev()),
            r matches Err(e) ==> final(self).log() == old(self).log().push(refused_ev(e.msg@)),
            old(self).accepts_all() ==> r is Ok,
            final(self).accepts_all() == old(self).accepts_all(),
    ;
}

/// A concrete record of one sink operation, kept by the in-memory sinks so
/// that callers and tests can inspect exactly what happened, in order.
pub enum SinkEvent {
    Write(String),
    Flush,
    Refused(String),
}

/// The abstract event a recorded operation stands for.
pub open spec fn event_view(e: SinkEvent) -> SinkOp {
    match e {
        SinkEvent::Write(s) => write_ev(s@),
        SinkEvent::Flush => flush_ev(),
        SinkEvent::Refused(m) => refused_ev(m@),
    }
}

/// Everything the recorded operations `events` wrote, as one string.
pub fn concat_writes(events: &Vec<SinkEvent>) -> (r: String)
    ensures
        r@ == out_of(events@.map_values(|e: SinkEvent| event_view(e))),
{
    let ghost log = events@.map_values(|e: SinkEvent| event_view(e));
    let mut acc = String::new();
    let mut i: usize = 0;
    while i < events.len()
        invariant
            0 <= i <= events.len(),
            log == events@.map_values(|e: SinkEvent| event_view(e)),
            acc@ == out_of(log.take(i as int)),
        decreases events.len() - i,
    {
        proof {
            assert(log.take(i + 1).drop_last() =~= log.take(i as int));
        }
        match &events[i] {
            SinkEvent::Write(s) => {
                acc.append(s.as_str());
            },
            SinkEvent::Flush => {
                proof {
                    assert(acc@ + chars_of(log[i as int]) =~= acc@);
                }
            },
            SinkEvent::Refused(_) => {
                proof {
                    assert(acc@ + chars_of(log[i as int]) =~= acc@);
                }
            },
        }
        i += 1;
    }
    proof {
        assert(log.take(log.len() as int) =~= log);
    }
    acc
}

/// An in-memory sink that accepts every write and every flush and records
/// each operation.
pub struct RecordingSink {
    events: Vec<SinkEvent>,
}

impl RecordingSink {
    pub fn new() -> (r: RecordingSink)
        ensures
            r.log() == Seq::<SinkOp>::empty(),
            r.accepts_all(),
    {
        let r = RecordingSink { events: Vec::new() };
        proof {
            assert(r.log() =~= Seq::<SinkOp>::empty());
        }
        r
    }

    /// The recorded operations, oldest first.
    pub fn events(&self) -> (r: &Vec<SinkEvent>)
        ensures
            r@.map_values(|e: SinkEvent| event_view(e)) == self.log(),
    {
        &self.events
    }

    /// Everything written so far, as one string.
    pub fn contents(&self) -> (r: String)
        ensures
            r@ == out_of(self.log()),
    {
        concat_writes(&self.events)
    }
}

impl Sink for RecordingSink {
    closed spec fn log(&self) -> Seq<SinkOp> {
        self.events@.map_values(|e: SinkEvent| event_view(e))
    }

    /// This sink refuses nothing.
    open spec fn accepts_all(&self) -> bool {
        true
    }

    fn write_str(&mut self, s: &str) -> (r: Result<(), SinkError>)
        ensures
            r is Ok,
    {
        self.events.push(SinkEvent::Write(s.to_owned()));
        proof {
            assert(self.log() =~= old(self).log().push(write_ev(s@)));
        }
        Ok(())
    }

    fn flush(&mut self) -> (r: Result<(), SinkError>)
        ensures
            r is Ok,
    {
        self.events.push(SinkEvent::Flush);
        proof {
            assert(self.log() =~= old(self).log().push(flush_ev()));
        }
        Ok(())
    }
}

/// An in-memory sink with a limited budget of operations: the first
/// `remaining` writes or flushes are accepted and recorded, and every later
/// one is refused, leaves no characters, and is recorded as a refusal. It
/// exists to exercise failure handling.
pub struct FailingSink {
    budget: usize,
    events: Vec<SinkEvent>,
}

impl FailingSink {
    /// How many more operations this sink will accept.
    pub closed spec fn remaining(&self) -> nat {
        self.budget as nat
    }

    pub fn new(budget: usize) -> (r: FailingSink)
        ensures
            r.log() == Seq::<SinkOp>::empty(),
            r.remaining() == budget,
    {
        let r = FailingSink { budget, events: Vec::new() };
        proof {
            assert(r.log() =~= Seq::<SinkOp>::empty());
        }
        r
    }

    /// The recorded operations, accepted and refused, oldest first.
    pub fn events(&self) -> (r: &Vec<SinkEvent>)
        ensures
            r@.map_values(|e: SinkEvent| event_view(e)) == self.log(),
    {
        &self.events
    }

    /// Everything accepted so far, as one string.
    pub fn contents(&self) -> (r: String)
        ensures
            r@ == out_of(self.log()),
    {
        concat_writes(&self.events)
    }
}

impl Sink for FailingSink {
    closed spec fn log(&self) -> Seq<SinkOp> {
        self.events@.map_values(|e: SinkEvent| event_view(e))
    }

    fn write_str(&mut self, s: &str) -> (r: Result<(), SinkError>)
        ensures
            r is Ok <==> old(self).remaining() > 0,
            final(self).remaining() == if old(self).remaining() > 0 {
                (old(self).remaining() - 1) as nat
            } else {
                0
            },
    {
        if self.budget == 0 {
            let msg = "the sink refused a write".to_owned();
            self.events.push(SinkEvent::Refused(msg.clone()));
            proof {
                assert(self.log() =~= old(self).log().push(refused_ev(msg@)));
            }
            Err(SinkError { msg })
        } else {
            self.budget = self.budget - 1;
            self.events.push(SinkEvent::Write(s.to_owned()));
            proof {
                assert(self.log() =~= old(self).log().push(write_ev(s@)));
            }
            Ok(())
        }
    }

    fn flush(&mut self) -> (r: Result<(), SinkError>)
        ensures
            r is Ok <==> old(self).remaining() > 0,
            final(self).remaining() == if old(self).remaining() > 0 {
                (old(self).remaining() - 1) as nat
            } else {
                0
            },
    {
        if self.budget == 0 {
            let msg = "the sink refused a flush".to_owned();
            self.events.push(SinkEvent::Refused(msg.clone()));
            proof {
                assert(self.log() =~= old(self).log().push(refused_ev(msg@)));
            }
            Err(SinkError { msg })
        } else {
            self.budget = self.budget - 1;
            self.events.push(SinkEvent::Flush);
            proof {
                assert(self.log() =~= old(self).log().push(flush_ev()));
            }
            Ok(())
        }
    }
}

} // verus!
