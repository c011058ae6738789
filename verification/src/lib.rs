//! Python-style `print` as a verified builder.
//!
//! A [`Printer`](printer::Printer) collects already-stringified elements and
//! four configuration values (separator, terminator, destination sink, flush
//! flag) and renders them in one terminal operation. The
//! [`dispatch`](dispatch::dispatch) function plays the role of the call-site
//! grammar: it walks a mixed list of values and named options left to right,
//! routes each to the builder, and renders once at the end.
//!
//! Destinations are values of types implementing the [`Sink`](sink::Sink)
//! trait, whose contract speaks of an abstract event log: what was written,
//! in what order, when the sink was flushed, and where it refused an
//! operation. A sink that accepts every operation makes success provable;
//! an error is always one refusal the log shows.

mod dispatch;
mod outcome;
mod printer;
mod sink;

pub use crate::dispatch::{
    Arg, dispatch, end_of, file_of, flush_of, lemma_args_split, lemma_last_end_wins,
    lemma_last_file_wins, lemma_last_flush_wins, lemma_last_sep_wins, lemma_option_value_commute,
    sep_of, values_of,
};
pub use crate::outcome::LastResult;
pub use crate::printer::{
    Printer, default_end, default_sep, joined, lemma_flush_after_terminator,
    lemma_plan_has_no_refusal, lemma_plan_output, lemma_render_empty, plan_events, rendered,
    write_chunks,
};
pub use crate::sink::{
    FailingSink, RecordingSink, Sink, SinkError, SinkEvent, SinkOp, chars_of, concat_writes,
    event_view, flush_ev, out_of, refused_ev, write_ev,
};
