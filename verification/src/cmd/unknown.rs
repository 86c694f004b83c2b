//! The catch-all for a command name the server does not recognise.
use vstd::prelude::*;
use vstd::string::StrSliceExecFns;
use vstd::string::StringExecFns;

use crate::frame::{Frame, FrameV};

verus! {

/// A command the server does not know; its reply is an error frame naming
/// the command.
pub struct Unknown {
    command_name: String,
}

impl View for Unknown {
    type V = Seq<char>;

    closed spec fn view(&self) -> Seq<char> {
        self.command_name@
    }
}

impl Unknown {
    /// An Unknown command carrying the unrecognised name.
    pub fn new(key: String) -> (u: Unknown)
        ensures
            u@ == key@,
    {
        Unknown { command_name: key }
    }

    /// The unrecognised name.
    pub fn get_name(&self) -> (r: &str)
        ensures
            r@ == self@,
    {
        self.command_name.as_str()
    }

    /// The reply: an error frame naming the command.
    pub fn apply(self) -> (resp: Frame)
        ensures
            resp@ == FrameV::Error("ERR unknown command '"@ + self@ + "'"@),
    {
        let text = String::from_str("ERR unknown command '").concat(
            self.command_name.as_str(),
        ).concat("'");
        Frame::Error(text)
    }
}

} // verus!
