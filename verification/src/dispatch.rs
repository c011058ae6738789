use vstd::prelude::*;

use crate::printer::{Printer, default_end, default_sep, plan_events};
use crate::sink::{Sink, SinkError, refused_ev};

verus! {

/// One call-site argument: either a value to append, already stringified in
/// the flavor the caller chose, or one of the four named options.
pub enum Arg<S> {
    Value(String),
    Sep(String),
    End(String),
    File(S),
    Flush(bool),
}

/// The elements an argument list contributes: the values, in order.
pub open spec fn values_of<S>(args: Seq<Arg<S>>) -> Seq<Seq<char>>
    decreases args.len(),
{
    if args.len() == 0 {
        Seq::<Seq<char>>::empty()
    } else {
        let rest = values_of(args.drop_last());
        match args.last() {
            Arg::Value(v) => rest.push(v@),
            _ => rest,
        }
    }
}

/// The separator an argument list settles on: the payload of its last `Sep`
/// argument, or `default` when it has none.
pub open spec fn sep_of<S>(args: Seq<Arg<S>>, default: Seq<char>) -> Seq<char>
    decreases args.len(),
{
    if args.len() == 0 {
        default
    } else {
        match args.last() {
            Arg::Sep(s) => s@,
            _ => sep_of(args.drop_last(), default),
        }
    }
}

/// The terminator an argument list settles on: the payload of its last `End`
/// argument, or `default` when it has none.
pub open spec fn end_of<S>(args: Seq<Arg<S>>, default: Seq<char>) -> Seq<char>
    decreases args.len(),
{
    if args.len() == 0 {
        default
    } else {
        match args.last() {
            Arg::End(s) => s@,
            _ => end_of(args.drop_last(), default),
        }
    }
}

/// The flush flag an argument list settles on: the payload of its last
/// `Flush` argument, or `default` when it has none.
pub open spec fn flush_of<S>(args: Seq<Arg<S>>, default: bool) -> bool
    decreases args.len(),
{
    if args.len() == 0 {
        default
    } else {
        match args.last() {
            Arg::Flush(b) => b,
            _ => flush_of(args.drop_last(), default),
        }
    }
}

/// The destination an argument list settles on: the payload of its last
/// `File` argument, or `default` when it has none.
pub open spec fn file_of<S>(args: Seq<Arg<S>>, default: S) -> S
    decreases args.len(),
{
    if args.len() == 0 {
        default
    } else {
        match args.last() {
            Arg::File(f) => f,
            _ => file_of(args.drop_last(), default),
        }
    }
}

/// Splitting an argument list in two: the values of the halves concatenate,
/// and each effective option of the whole list is the second half's, computed
/// with the first half's effective option as its default. In particular the
/// second half decides whenever it holds the option at all.
pub proof fn lemma_args_split<S>(
    a: Seq<Arg<S>>,
    b: Seq<Arg<S>>,
    dsep: Seq<char>,
    dend: Seq<char>,
    dfl: bool,
    dfile: S,
)
    ensures
        values_of(a + b) == values_of(a) + values_of(b),
        sep_of(a + b, dsep) == sep_of(b, sep_of(a, dsep)),
        end_of(a + b, dend) == end_of(b, end_of(a, dend)),
        flush_of(a + b, dfl) == flush_of(b, flush_of(a, dfl)),
        file_of(a + b, dfile) == file_of(b, file_of(a, dfile)),
    decreases b.len(),
{
    if b.len() == 0 {
        assert(a + b =~= a);
        assert(values_of(a) + values_of(b) =~= values_of(a));
    } else {
        lemma_args_split(a, b.drop_last(), dsep, dend, dfl, dfile);
        assert((a + b).drop_last() =~= a + b.drop_last());
        assert((a + b).last() == b.last());
        match b.last() {
            Arg::Value(v) => {
                assert(values_of(a) + values_of(b) =~= (values_of(a) + values_of(
                    b.drop_last(),
                )).push(v@));
            },
            _ => {},
        }
    }
}

/// An argument list without a `Sep` argument settles on the default separator.
proof fn lemma_sep_default<S>(args: Seq<Arg<S>>, d: Seq<char>)
    requires
        forall|i: int| 0 <= i < args.len() ==> !((#[trigger] args[i]) is Sep),
    ensures
        sep_of(args, d) == d,
    decreases args.len(),
{
    if args.len() > 0 {
        lemma_sep_default(args.drop_last(), d);
    }
}

/// An argument list without an `End` argument settles on the default
/// terminator.
proof fn lemma_end_default<S>(args: Seq<Arg<S>>, d: Seq<char>)
    requires
        forall|i: int| 0 <= i < args.len() ==> !((#[trigger] args[i]) is End),
    ensures
        end_of(args, d) == d,
    decreases args.len(),
{
    if args.len() > 0 {
        lemma_end_default(args.drop_last(), d);
    }
}

/// An argument list without a `Flush` argument settles on the default flag.
proof fn lemma_flush_default<S>(args: Seq<Arg<S>>, d: bool)
    requires
        forall|i: int| 0 <= i < args.len() ==> !((#[trigger] args[i]) is Flush),
    ensures
        flush_of(args, d) == d,
    decreases args.len(),
{
    if args.len() > 0 {
        lemma_flush_default(args.drop_last(), d);
    }
}

/// An argument list without a `File` argument settles on the default
/// destination.
proof fn lemma_file_default<S>(args: Seq<Arg<S>>, d: S)
    requires
        forall|i: int| 0 <= i < args.len() ==> !((#[trigger] args[i]) is File),
    ensures
        file_of(args, d) == d,
    decreases args.len(),
{
    if args.len() > 0 {
        lemma_file_default(args.drop_last(), d);
    }
}

/// Only the last `Sep` argument takes effect: whatever stands before it —
/// earlier `Sep` arguments included — and whatever follows it that is not
/// itself a `Sep`, the effective separator is its payload.
pub proof fn lemma_last_sep_wins<S>(pre: Seq<Arg<S>>, s: String, post: Seq<Arg<S>>, d: Seq<char>)
    requires
        forall|i: int| 0 <= i < post.len() ==> !((#[trigger] post[i]) is Sep),
    ensures
        sep_of(pre + seq![Arg::Sep(s)] + post, d) == s@,
{
    let mid = pre + seq![Arg::Sep(s)];
    lemma_args_split(mid, post, d, d, false, arbitrary::<S>());
    assert(mid.last() == Arg::<S>::Sep(s));
    assert(sep_of(mid, d) == s@);
    lemma_sep_default(post, s@);
}

/// Only the last `End` argument takes effect.
pub proof fn lemma_last_end_wins<S>(pre: Seq<Arg<S>>, s: String, post: Seq<Arg<S>>, d: Seq<char>)
    requires
        forall|i: int| 0 <= i < post.len() ==> !((#[trigger] post[i]) is End),
    ensures
        end_of(pre + seq![Arg::End(s)] + post, d) == s@,
{
    let mid = pre + seq![Arg::End(s)];
    lemma_args_split(mid, post, d, d, false, arbitrary::<S>());
    assert(mid.last() == Arg::<S>::End(s));
    assert(end_of(mid, d) == s@);
    lemma_end_default(post, s@);
}

/// Only the last `Flush` argument takes effect.
pub proof fn lemma_last_flush_wins<S>(pre: Seq<Arg<S>>, b: bool, post: Seq<Arg<S>>, d: bool)
    requires
        forall|i: int| 0 <= i < post.len() ==> !((#[trigger] post[i]) is Flush),
    ensures
        flush_of(pre + seq![Arg::Flush(b)] + post, d) == b,
{
    let mid = pre + seq![Arg::Flush(b)];
    lemma_args_split(mid, post, seq![], seq![], d, arbitrary::<S>());
    assert(mid.last() == Arg::<S>::Flush(b));
    assert(flush_of(mid, d) == b);
    lemma_flush_default(post, b);
}

/// Only the last `File` argument takes effect.
pub proof fn lemma_last_file_wins<S>(pre: Seq<Arg<S>>, f: S, post: Seq<Arg<S>>, d: S)
    requires
        forall|i: int| 0 <= i < post.len() ==> !((#[trigger] post[i]) is File),
    ensures
        file_of(pre + seq![Arg::File(f)] + post, d) == f,
{
    let mid = pre + seq![Arg::File(f)];
    lemma_args_split(mid, post, seq![], seq![], false, d);
    assert(mid.last() == Arg::<S>::File(f));
    assert(file_of(mid, d) == f);
    lemma_file_default(post, f);
}

/// The shared shape facts about the two-argument lists of one swap.
proof fn lemma_pair_shape<S>(o: Arg<S>, v: Arg<S>)
    ensures
        seq![o, v].drop_last() == seq![o],
        seq![v, o].drop_last() == seq![v],
        seq![o].drop_last() == Seq::<Arg<S>>::empty(),
        seq![v].drop_last() == Seq::<Arg<S>>::empty(),
        seq![o, v].last() == v,
        seq![v, o].last() == o,
        seq![o].last() == o,
        seq![v].last() == v,
{
    assert(seq![o, v].drop_last() =~= seq![o]);
    assert(seq![v, o].drop_last() =~= seq![v]);
    assert(seq![o].drop_last() =~= Seq::<Arg<S>>::empty());
    assert(seq![v].drop_last() =~= Seq::<Arg<S>>::empty());
}

/// Swapping one option with one adjacent value keeps the effective separator.
proof fn lemma_pair_sep<S>(o: Arg<S>, v: Arg<S>, d: Seq<char>)
    requires
        !(o is Value),
        v is Value,
    ensures
        sep_of(seq![o, v], d) == sep_of(seq![v, o], d),
{
    lemma_pair_shape(o, v);
    match o {
        Arg::Sep(s) => {
            assert(sep_of(seq![o], d) == s@);
            assert(sep_of(seq![o, v], d) == s@);
            assert(sep_of(seq![v, o], d) == s@);
        },
        _ => {
            assert(sep_of(Seq::<Arg<S>>::empty(), d) == d);
            assert(sep_of(seq![o], d) == d);
            assert(sep_of(seq![v], d) == d);
            assert(sep_of(seq![o, v], d) == d);
            assert(sep_of(seq![v, o], d) == d);
        },
    }
}

/// Swapping one option with one adjacent value keeps the effective
/// terminator.
proof fn lemma_pair_end<S>(o: Arg<S>, v: Arg<S>, d: Seq<char>)
    requires
        !(o is Value),
        v is Value,
    ensures
        end_of(seq![o, v], d) == end_of(seq![v, o], d),
{
    lemma_pair_shape(o, v);
    match o {
        Arg::End(s) => {
            assert(end_of(seq![o], d) == s@);
            assert(end_of(seq![o, v], d) == s@);
            assert(end_of(seq![v, o], d) == s@);
        },
        _ => {
            assert(end_of(Seq::<Arg<S>>::empty(), d) == d);
            assert(end_of(seq![o], d) == d);
            assert(end_of(seq![v], d) == d);
            assert(end_of(seq![o, v], d) == d);
            assert(end_of(seq![v, o], d) == d);
        },
    }
}

/// Swapping one option with one adjacent value keeps the effective flush
/// flag.
proof fn lemma_pair_flush<S>(o: Arg<S>, v: Arg<S>, d: bool)
    requires
        !(o is Value),
        v is Value,
    ensures
        flush_of(seq![o, v], d) == flush_of(seq![v, o], d),
{
    lemma_pair_shape(o, v);
    match o {
        Arg::Flush(b) => {
            assert(flush_of(seq![o], d) == b);
            assert(flush_of(seq![o, v], d) == b);
            assert(flush_of(seq![v, o], d) == b);
        },
        _ => {
            assert(flush_of(Seq::<Arg<S>>::empty(), d) == d);
            assert(flush_of(seq![o], d) == d);
            assert(flush_of(seq![v], d) == d);
            assert(flush_of(seq![o, v], d) == d);
            assert(flush_of(seq![v, o], d) == d);
        },
    }
}

/// Swapping one option with one adjacent value keeps the effective
/// destination.
proof fn lemma_pair_file<S>(o: Arg<S>, v: Arg<S>, d: S)
    requires
        !(o is Value),
        v is Value,
    ensures
        file_of(seq![o, v], d) == file_of(seq![v, o], d),
{
    lemma_pair_shape(o, v);
    match o {
        Arg::File(f) => {
            assert(file_of(seq![o], d) == f);
            assert(file_of(seq![o, v], d) == f);
            assert(file_of(seq![v, o], d) == f);
        },
        _ => {
            assert(file_of(Seq::<Arg<S>>::empty(), d) == d);
            assert(file_of(seq![o], d) == d);
            assert(file_of(seq![v], d) == d);
            assert(file_of(seq![o, v], d) == d);
            assert(file_of(seq![v, o], d) == d);
        },
    }
}

/// Options are order-independent relative to values: swapping an option with
/// an adjacent value changes neither the element sequence nor any effective
/// option, and therefore not the rendered output either. Repeated swaps move
/// an option anywhere in the list.
pub proof fn lemma_option_value_commute<S>(
    pre: Seq<Arg<S>>,
    o: Arg<S>,
    v: Arg<S>,
    post: Seq<Arg<S>>,
    dsep: Seq<char>,
    dend: Seq<char>,
    dfl: bool,
    dfile: S,
)
    requires
        !(o is Value),
        v is Value,
    ensures
        values_of(pre + seq![o, v] + post) == values_of(pre + seq![v, o] + post),
        sep_of(pre + seq![o, v] + post, dsep) == sep_of(pre + seq![v, o] + post, dsep),
        end_of(pre + seq![o, v] + post, dend) == end_of(pre + seq![v, o] + post, dend),
        flush_of(pre + seq![o, v] + post, dfl) == flush_of(pre + seq![v, o] + post, dfl),
        file_of(pre + seq![o, v] + post, dfile) == file_of(pre + seq![v, o] + post, dfile),
        crate::printer::rendered(
            values_of(pre + seq![o, v] + post),
            sep_of(pre + seq![o, v] + post, dsep),
            end_of(pre + seq![o, v] + post, dend),
        ) == crate::printer::rendered(
            values_of(pre + seq![v, o] + post),
            sep_of(pre + seq![v, o] + post, dsep),
            end_of(pre + seq![v, o] + post, dend),
        ),
{
    let ov = seq![o, v];
    let vo = seq![v, o];
    lemma_args_split(pre, ov, dsep, dend, dfl, dfile);
    lemma_args_split(pre, vo, dsep, dend, dfl, dfile);
    lemma_args_split(pre + ov, post, dsep, dend, dfl, dfile);
    lemma_args_split(pre + vo, post, dsep, dend, dfl, dfile);
    lemma_pair_sep(o, v, sep_of(pre, dsep));
    lemma_pair_end(o, v, end_of(pre, dend));
    lemma_pair_flush(o, v, flush_of(pre, dfl));
    lemma_pair_file(o, v, file_of(pre, dfile));
    assert(ov.drop_last() =~= seq![o]);
    assert(vo.drop_last() =~= seq![v]);
    assert(seq![o].drop_last() =~= Seq::<Arg<S>>::empty());
    assert(seq![v].drop_last() =~= Seq::<Arg<S>>::empty());
    assert(ov.last() == v);
    assert(vo.last() == o);
    assert(values_of(Seq::<Arg<S>>::empty()) =~= Seq::<Seq<char>>::empty());
    assert(values_of(seq![o]) =~= Seq::<Seq<char>>::empty());
    match v {
        Arg::Value(w) => {
            assert(values_of(seq![v]) =~= seq![w@]);
            assert(values_of(ov) =~= values_of(seq![o]).push(w@));
            assert(values_of(vo) =~= values_of(seq![v]));
            assert(values_of(ov) =~= seq![w@]);
            assert(values_of(vo) =~= seq![w@]);
        },
        _ => {},
    }
    assert(values_of(pre + ov) == values_of(pre + vo));
    assert(values_of(pre + ov + post) =~= values_of(pre + ov) + values_of(post));
    assert(values_of(pre + vo + post) =~= values_of(pre + vo) + values_of(post));
}

/// The call-site grammar as a runtime scanner: walk `args` left to right,
/// route every value to `add_element` and every option to its setter (so the
/// last occurrence of an option wins), then render exactly once.
///
/// Returns the finished job, whose sink holds whatever the render wrote, and
/// the render's outcome. The destination is `file` unless a `File` argument
/// replaced it; when that destination accepts every operation, the outcome is
/// owed to be success, and an error is always one logged sink refusal whose
/// message the result carries.
pub fn dispatch<S: Sink>(file: S, args: Vec<Arg<S>>) -> (out: (Printer<S>, Result<(), SinkError>))
    ensures
        out.0.elems() == values_of(args@),
        out.0.sep_str() == sep_of(args@, default_sep()),
        out.0.end_str() == end_of(args@, default_end()),
        out.0.flush_flag() == flush_of(args@, false),
        out.0.sink().accepts_all() == file_of(args@, file).accepts_all(),
        file_of(args@, file).accepts_all() ==> out.1 is Ok,
        ({
            let plan = plan_events(
                values_of(args@),
                sep_of(args@, default_sep()),
                end_of(args@, default_end()),
                flush_of(args@, false),
            );
            let base = file_of(args@, file).log();
            &&& (out.1 is Ok ==> out.0.sink().log() == base + plan)
            &&& (out.1 matches Err(e) ==> exists|k: int|
                0 <= k < plan.len() && out.0.sink().log() == base + plan.take(k).push(
                    refused_ev(e.msg@),
                ))
        }),
{
    let ghost all = args@;
    let mut rest = args;
    let mut p = Printer::new(file);
    let ghost mut i: int = 0;
    proof {
        assert(all.take(0) =~= Seq::<Arg<S>>::empty());
    }
    while rest.len() > 0
        invariant
            0 <= i <= all.len(),
            rest@ == all.skip(i),
            p.elems() == values_of(all.take(i)),
            p.sep_str() == sep_of(all.take(i), default_sep()),
            p.end_str() == end_of(all.take(i), default_end()),
            p.flush_flag() == flush_of(all.take(i), false),
            p.sink() == file_of(all.take(i), file),
        decreases rest.len(),
    {
        let a = rest.remove(0);
        proof {
            assert(a == all[i]);
            assert(rest@ =~= all.skip(i + 1));
            assert(all.take(i + 1).drop_last() =~= all.take(i));
            assert(all.take(i + 1).last() == all[i]);
        }
        match a {
            Arg::Value(v) => {
                p.add_element(v);
            },
            Arg::Sep(s) => {
                p.set_sep(s);
            },
            Arg::End(s) => {
                p.set_end(s);
            },
            Arg::File(f) => {
                p.set_file(f);
            },
            Arg::Flush(b) => {
                p.set_flush(b);
            },
        }
        proof {
            i = i + 1;
        }
    }
    proof {
        assert(all.take(all.len() as int) =~= all);
    }
    let r = p.print();
    (p, r)
}

} // verus!
