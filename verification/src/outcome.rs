use vstd::prelude::*;

use crate::sink::SinkError;

verus! {

/// The record of the most recent render's outcome. One slot belongs to one
/// thread of execution; keeping it there is the caller's affair. The slot
/// itself only knows that a fresh slot reports success, that every render
/// overwrites it, and that it hands back exactly what was stored.
pub struct LastResult {
    err: Option<SinkError>,
}

impl LastResult {
    /// Whether the slot holds a success.
    pub closed spec fn is_success(&self) -> bool {
        self.err is None
    }

    /// The message of the stored failure; empty for a success.
    pub closed spec fn err_msg(&self) -> Seq<char> {
        match self.err {
            Option::Some(e) => e.msg@,
            Option::None => Seq::<char>::empty(),
        }
    }

    /// A fresh slot reports success: before any render has happened, there is
    /// nothing to complain about.
    pub fn new() -> (r: LastResult)
        ensures
            r.is_success(),
    {
        LastResult { err: None }
    }

    /// Overwrite the slot with the outcome of a render; whatever was stored
    /// before is gone.
    pub fn record(&mut self, outcome: Result<(), SinkError>)
        ensures
            final(self).is_success() <==> outcome is Ok,
            outcome matches Err(e) ==> final(self).err_msg() == e.msg@,
    {
        match outcome {
            Ok(()) => {
                self.err = None;
            },
            Err(e) => {
                self.err = Some(e);
            },
        }
    }

    /// The stored outcome: success, or the failure with its message.
    pub fn get(&self) -> (r: Result<(), SinkError>)
        ensures
            r is Ok <==> self.is_success(),
            r matches Err(e) ==> e.msg@ == self.err_msg(),
    {
        match &self.err {
            None => Ok(()),
            Some(e) => Err(e.clone()),
        }
    }
}

} // verus!
