use vstd::prelude::*;

use crate::sink::{Sink, SinkError, SinkOp, chars_of, flush_ev, out_of, refused_ev, write_ev};

verus! {

/// The separator a fresh `Printer` starts with: a single space.
pub open spec fn default_sep() -> Seq<char> {
    seq![' ']
}

/// The terminator a fresh `Printer` starts with: a single newline.
pub open spec fn default_end() -> Seq<char> {
    seq!['\n']
}

/// The characters one render emits for the elements `es` alone: the elements
/// in order, with `sep` between each consecutive pair, so `es.len() - 1`
/// separator occurrences in all and none when `es` is empty or a singleton.
pub open spec fn joined(es: Seq<Seq<char>>, sep: Seq<char>) -> Seq<char>
    decreases es.len(),
{
    if es.len() == 0 {
        Seq::<char>::empty()
    } else if es.len() == 1 {
        es[0]
    } else {
        es[0] + sep + joined(es.drop_first(), sep)
    }
}

/// Everything one render writes: the joined elements followed by the
/// terminator. For an empty `es` this is exactly `end`.
pub open spec fn rendered(es: Seq<Seq<char>>, sep: Seq<char>, end: Seq<char>) -> Seq<char> {
    joined(es, sep) + end
}

/// The strings a render hands to the sink, one write each: the first element,
/// then `sep` prepended to every later element, then `end`; for an empty `es`
/// the bare terminator.
pub open spec fn write_chunks(es: Seq<Seq<char>>, sep: Seq<char>, end: Seq<char>) -> Seq<Seq<char>> {
    if es.len() == 0 {
        seq![end]
    } else {
        seq![es[0]] + Seq::new((es.len() - 1) as nat, |i: int| sep + es[i + 1]) + seq![end]
    }
}

/// The full event sequence one render appends to a sink's log when every
/// operation succeeds: one write per chunk and, when `fl` is set and there is
/// at least one element, a single flush after the terminator.
pub open spec fn plan_events(
    es: Seq<Seq<char>>,
    sep: Seq<char>,
    end: Seq<char>,
    fl: bool,
) -> Seq<SinkOp> {
    let writes = write_chunks(es, sep, end).map_values(|c: Seq<char>| write_ev(c));
    if es.len() > 0 && fl {
        writes.push(flush_ev())
    } else {
        writes
    }
}

/// Appending one element to a non-empty sequence appends one separator and
/// that element to the joined characters; to an empty sequence it contributes
/// the element alone.
proof fn lemma_joined_push(es: Seq<Seq<char>>, x: Seq<char>, sep: Seq<char>)
    ensures
        joined(es.push(x), sep) == if es.len() == 0 {
            x
        } else {
            joined(es, sep) + sep + x
        },
    decreases es.len(),
{
    if es.len() == 0 {
        assert(es.push(x)[0] == x);
    } else if es.len() == 1 {
        assert(es.push(x).drop_first() =~= seq![x]);
        assert(joined(seq![x], sep) == x);
        assert(es.push(x)[0] == es[0]);
    } else {
        assert(es.push(x).drop_first() =~= es.drop_first().push(x));
        lemma_joined_push(es.drop_first(), x, sep);
        assert(es.push(x)[0] == es[0]);
        assert(es[0] + sep + (joined(es.drop_first(), sep) + sep + x) =~= (es[0] + sep + joined(
            es.drop_first(),
            sep,
        )) + sep + x);
    }
}

/// The first `j` write chunks of a non-empty render spell out exactly the
/// first `j` elements joined by the separator.
proof fn lemma_prefix_output(es: Seq<Seq<char>>, sep: Seq<char>, end: Seq<char>, j: int)
    requires
        1 <= j <= es.len(),
    ensures
        out_of(write_chunks(es, sep, end).map_values(|c: Seq<char>| write_ev(c)).take(j)) == joined(
            es.take(j),
            sep,
        ),
    decreases j,
{
    let w = write_chunks(es, sep, end).map_values(|c: Seq<char>| write_ev(c));
    if j == 1 {
        assert(w.take(1).drop_last() =~= Seq::<SinkOp>::empty());
        assert(w.take(1).last() == write_ev(es[0]));
        assert(Seq::<char>::empty() + es[0] =~= es[0]);
        assert(joined(es.take(1), sep) == es.take(1)[0]);
        assert(out_of(w.take(1)) == out_of(w.take(1).drop_last()) + chars_of(w.take(1).last()));
        assert(out_of(w.take(1)) == joined(es.take(1), sep));
    } else {
        lemma_prefix_output(es, sep, end, j - 1);
        assert(w.take(j).drop_last() =~= w.take(j - 1));
        assert(w.take(j).last() == write_ev(sep + es[j - 1]));
        assert(es.take(j) =~= es.take(j - 1).push(es[j - 1]));
        lemma_joined_push(es.take(j - 1), es[j - 1], sep);
        assert(joined(es.take(j - 1), sep) + (sep + es[j - 1]) =~= (joined(es.take(j - 1), sep)
            + sep) + es[j - 1]);
    }
}

/// What one complete render hands the sink, taken together, is exactly the
/// rendered string: every element in order, one separator between each
/// consecutive pair — `es.len() - 1` occurrences, never more or fewer — and
/// the terminator after the last element. The flush flag adds no characters.
pub proof fn lemma_plan_output(es: Seq<Seq<char>>, sep: Seq<char>, end: Seq<char>, fl: bool)
    ensures
        out_of(plan_events(es, sep, end, fl)) == rendered(es, sep, end),
{
    let w = write_chunks(es, sep, end).map_values(|c: Seq<char>| write_ev(c));
    if es.len() == 0 {
        assert(w.drop_last() =~= Seq::<SinkOp>::empty());
        assert(w.last() == write_ev(end));
        assert(Seq::<char>::empty() + end =~= end);
        assert(joined(es, sep) + end =~= end);
        assert(out_of(w) == out_of(w.drop_last()) + chars_of(w.last()));
        assert(out_of(w) == end);
    } else {
        let n = es.len() as int;
        lemma_prefix_output(es, sep, end, n);
        assert(w.take(n + 1).drop_last() =~= w.take(n));
        assert(w.take(n + 1).last() == write_ev(end));
        assert(out_of(w.take(n + 1)) == out_of(w.take(n)) + end);
        assert(w.take(n + 1) =~= w);
        assert(es.take(n) =~= es);
        assert(out_of(w) == joined(es, sep) + end);
        if fl {
            let plan = plan_events(es, sep, end, fl);
            assert(plan.drop_last() =~= w);
            assert(plan.last() == flush_ev());
            assert(out_of(plan) == out_of(w) + chars_of(flush_ev()));
            assert(out_of(w) + chars_of(flush_ev()) =~= out_of(w));
        }
    }
}

/// For an empty element sequence a render emits exactly the terminator: no
/// element, no separator, and no flush either way.
pub proof fn lemma_render_empty(sep: Seq<char>, end: Seq<char>, fl: bool)
    ensures
        rendered(Seq::<Seq<char>>::empty(), sep, end) == end,
        plan_events(Seq::<Seq<char>>::empty(), sep, end, fl) == seq![write_ev(end)],
        out_of(plan_events(Seq::<Seq<char>>::empty(), sep, end, fl)) == end,
{
    let es = Seq::<Seq<char>>::empty();
    assert(Seq::<char>::empty() + end =~= end);
    assert(plan_events(es, sep, end, fl) =~= seq![write_ev(end)]);
    lemma_plan_output(es, sep, end, fl);
}

/// A render's plan holds only writes and flushes, never a refusal. So a log
/// that grew by the full plan — what `print` promises on success — shows no
/// failed operation, while an error always stands for one logged refusal:
/// the outcome is a failure exactly when the sink refused something.
pub proof fn lemma_plan_has_no_refusal(es: Seq<Seq<char>>, sep: Seq<char>, end: Seq<char>, fl: bool)
    ensures
        forall|i: int|
            0 <= i < plan_events(es, sep, end, fl).len() ==> !((#[trigger] plan_events(
                es,
                sep,
                end,
                fl,
            )[i]) is Refused),
{
    let chunks = write_chunks(es, sep, end);
    let plan = plan_events(es, sep, end, fl);
    assert forall|i: int| 0 <= i < plan.len() implies !((#[trigger] plan[i]) is Refused) by {
        if i < chunks.len() {
            assert(plan[i] == write_ev(chunks[i]));
        } else {
            assert(plan[i] == flush_ev());
        }
    }
}

/// With the flush flag set and at least one element, the plan of a render
/// holds exactly one flush: its very last event, coming right after the write
/// of the terminator and never before it.
pub proof fn lemma_flush_after_terminator(es: Seq<Seq<char>>, sep: Seq<char>, end: Seq<char>)
    requires
        es.len() > 0,
    ensures
        ({
            let plan = plan_events(es, sep, end, true);
            &&& plan.len() == es.len() + 2
            &&& plan.last() == flush_ev()
            &&& plan[plan.len() - 2] == write_ev(end)
            &&& forall|i: int| 0 <= i < plan.len() - 1 ==> (#[trigger] plan[i]) is Write
        }),
{
    let n = es.len() as int;
    let chunks = write_chunks(es, sep, end);
    let plan = plan_events(es, sep, end, true);
    assert(chunks[n] == end);
    assert(forall|i: int| 0 <= i < plan.len() - 1 ==> (#[trigger] plan[i]) is Write) by {
        assert forall|i: int| 0 <= i < plan.len() - 1 implies (#[trigger] plan[i]) is Write by {
            assert(plan[i] == write_ev(chunks[i]));
        }
    }
}

/// A single-use print job: an ordered list of already-stringified elements
/// plus the four configuration values, rendered by one call of `print`.
pub struct Printer<S> {
    elements: Vec<String>,
    sep: String,
    end: String,
    file: S,
    fls: bool,
}

impl<S> Printer<S> {
    /// The elements collected so far, in the order they were added.
    pub closed spec fn elems(&self) -> Seq<Seq<char>> {
        self.elements@.map_values(|e: String| e@)
    }

    /// The separator this job would render with.
    pub closed spec fn sep_str(&self) -> Seq<char> {
        self.sep@
    }

    /// The terminator this job would render with.
    pub closed spec fn end_str(&self) -> Seq<char> {
        self.end@
    }

    /// Whether this job flushes the sink after a complete render.
    pub closed spec fn flush_flag(&self) -> bool {
        self.fls
    }

    /// The destination this job would render to.
    pub closed spec fn sink(&self) -> S {
        self.file
    }
}

impl<S: Sink> Printer<S> {
    /// A fresh job writing to `file`: no elements, a single space as
    /// separator, a single newline as terminator, no flush.
    pub fn new(file: S) -> (p: Printer<S>)
        ensures
            p.elems() == Seq::<Seq<char>>::empty(),
            p.sep_str() == default_sep(),
            p.end_str() == default_end(),
            p.flush_flag() == false,
            p.sink() == file,
    {
        let p = Printer {
            elements: Vec::new(),
            sep: " ".to_owned(),
            end: "\n".to_owned(),
            file,
            fls: false,
        };
        proof {
            reveal_strlit(" ");
            reveal_strlit("\n");
            assert(p.elems() =~= Seq::<Seq<char>>::empty());
            assert(p.sep_str() =~= default_sep());
            assert(p.end_str() =~= default_end());
        }
        p
    }

    /// Append one element; everything else is left alone.
    pub fn add_element(&mut self, element: String) -> (r: &mut Self)
        ensures
            r.elems() == old(self).elems().push(element@),
            r.sep_str() == old(self).sep_str(),
            r.end_str() == old(self).end_str(),
            r.flush_flag() == old(self).flush_flag(),
            r.sink() == old(self).sink(),
            *final(self) == *final(r),
    {
        self.elements.push(element);
        proof {
            assert(self.elems() =~= old(self).elems().push(element@));
        }
        self
    }

    /// Replace the separator; the last call before `print` wins.
    pub fn set_sep(&mut self, sep: String) -> (r: &mut Self)
        ensures
            r.sep_str() == sep@,
            r.elems() == old(self).elems(),
            r.end_str() == old(self).end_str(),
            r.flush_flag() == old(self).flush_flag(),
            r.sink() == old(self).sink(),
            *final(self) == *final(r),
    {
        self.sep = sep;
        self
    }

    /// Replace the terminator; the last call before `print` wins.
    pub fn set_end(&mut self, end: String) -> (r: &mut Self)
        ensures
            r.end_str() == end@,
            r.elems() == old(self).elems(),
            r.sep_str() == old(self).sep_str(),
            r.flush_flag() == old(self).flush_flag(),
            r.sink() == old(self).sink(),
            *final(self) == *final(r),
    {
        self.end = end;
        self
    }

    /// Replace the destination; the last call before `print` wins.
    pub fn set_file(&mut self, file: S) -> (r: &mut Self)
        ensures
            r.sink() == file,
            r.elems() == old(self).elems(),
            r.sep_str() == old(self).sep_str(),
            r.end_str() == old(self).end_str(),
            r.flush_flag() == old(self).flush_flag(),
            *final(self) == *final(r),
    {
        self.file = file;
        self
    }

    /// Set whether a complete render is followed by one flush.
    pub fn set_flush(&mut self, fls: bool) -> (r: &mut Self)
        ensures
            r.flush_flag() == fls,
            r.elems() == old(self).elems(),
            r.sep_str() == old(self).sep_str(),
            r.end_str() == old(self).end_str(),
            r.sink() == old(self).sink(),
            *final(self) == *final(r),
    {
        self.fls = fls;
        self
    }

    /// A borrow of the destination, to inspect what was rendered.
    pub fn sink_ref(&self) -> (r: &S)
        ensures
            *r == self.sink(),
    {
        &self.file
    }

    /// The terminal operation: write every element, separated by the
    /// separator and closed by the terminator, to the sink, then flush once
    /// if the flush flag is set and at least one element was present.
    ///
    /// On success the sink's log grows by exactly the planned events — and
    /// success is owed whenever the sink accepts every operation. On the
    /// first refusal the render stops at once: the log grows by a strict
    /// prefix of the plan followed by that one refusal, whose message the
    /// returned error carries — so an error is always a sink refusal, never
    /// invented here. The job's elements and configuration are left
    /// untouched either way.
    pub fn print(&mut self) -> (r: Result<(), SinkError>)
        ensures
            final(self).elems() == old(self).elems(),
            final(self).sep_str() == old(self).sep_str(),
            final(self).end_str() == old(self).end_str(),
            final(self).flush_flag() == old(self).flush_flag(),
            final(self).sink().accepts_all() == old(self).sink().accepts_all(),
            old(self).sink().accepts_all() ==> r is Ok,
            ({
                let plan = plan_events(
                    old(self).elems(),
                    old(self).sep_str(),
                    old(self).end_str(),
                    old(self).flush_flag(),
                );
                &&& (r is Ok ==> final(self).sink().log() == old(self).sink().log() + plan)
                &&& (r matches Err(e) ==> exists|k: int|
                    0 <= k < plan.len() && final(self).sink().log() == old(self).sink().log()
                        + plan.take(k).push(refused_ev(e.msg@)))
            }),
    {
        let ghost plan = plan_events(
            old(self).elems(),
            old(self).sep_str(),
            old(self).end_str(),
            old(self).flush_flag(),
        );
        let ghost base = old(self).sink().log();
        let n = self.elements.len();
        if n == 0 {
            match self.file.write_str(self.end.as_str()) {
                Ok(()) => {
                    proof {
                        assert(self.file.log() =~= base + plan);
                    }
                    Ok(())
                },
                Err(e) => {
                    proof {
                        assert(self.file.log() =~= base + plan.take(0).push(refused_ev(e.msg@)));
                    }
                    Err(e)
                },
            }
        } else {
            match self.file.write_str(self.elements[0].as_str()) {
                Ok(()) => {
                    proof {
                        assert(plan[0] == write_ev(old(self).elems()[0]));
                        assert(self.file.log() =~= base + plan.take(1));
                    }
                },
                Err(e) => {
                    proof {
                        assert(self.file.log() =~= base + plan.take(0).push(refused_ev(e.msg@)));
                    }
                    return Err(e);
                },
            }
            let mut i: usize = 1;
            while i < n
                invariant
                    1 <= i <= n,
                    n == self.elements.len(),
                    self.elements@ == old(self).elements@,
                    self.sep@ == old(self).sep@,
                    self.end@ == old(self).end@,
                    self.fls == old(self).fls,
                    plan == plan_events(
                        old(self).elems(),
                        old(self).sep_str(),
                        old(self).end_str(),
                        old(self).flush_flag(),
                    ),
                    base == old(self).sink().log(),
                    self.file.log() == base + plan.take(i as int),
                    self.file.accepts_all() == old(self).sink().accepts_all(),
                decreases n - i,
            {
                let mut chunk = self.sep.clone();
                chunk.append(self.elements[i].as_str());
                proof {
                    assert(plan[i as int] == write_ev(
                        old(self).sep_str() + old(self).elems()[i as int],
                    ));
                    assert(chunk@ == old(self).sep_str() + old(self).elems()[i as int]);
                }
                match self.file.write_str(chunk.as_str()) {
                    Ok(()) => {
                        proof {
                            assert(plan.take(i + 1) =~= plan.take(i as int).push(plan[i as int]));
                            assert(self.file.log() =~= base + plan.take(i + 1));
                        }
                    },
                    Err(e) => {
                        proof {
                            assert(self.file.log() =~= base + plan.take(i as int).push(
                                refused_ev(e.msg@),
                            ));
                        }
                        return Err(e);
                    },
                }
                i += 1;
            }
            match self.file.write_str(self.end.as_str()) {
                Ok(()) => {
                    proof {
                        assert(plan[n as int] == write_ev(old(self).end_str()));
                        assert(plan.take(n + 1) =~= plan.take(n as int).push(plan[n as int]));
                        assert(self.file.log() =~= base + plan.take(n + 1));
                    }
                },
                Err(e) => {
                    proof {
                        assert(self.file.log() =~= base + plan.take(n as int).push(
                            refused_ev(e.msg@),
                        ));
                    }
                    return Err(e);
                },
            }
            if self.fls {
                match self.file.flush() {
                    Ok(()) => {
                        proof {
                            assert(plan.last() == flush_ev());
                            assert(self.file.log() =~= base + plan);
                        }
                        Ok(())
                    },
                    Err(e) => {
                        proof {
                            assert(self.file.log() =~= base + plan.take(n + 1).push(
                                refused_ev(e.msg@),
                            ));
                            assert(n + 1 < plan.len());
                        }
                        Err(e)
                    },
                }
            } else {
                proof {
                    assert(plan =~= plan.take(n + 1));
                }
                Ok(())
            }
        }
    }
}

} // verus!
