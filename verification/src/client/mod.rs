//! The decisions of the high-level IEC 61850 ACSI client.
//!
//! A client presents an IED as a data model addressed by object reference and
//! functional constraint, layered on the MMS services. What is asked of the
//! server, in which order, and what its answers come to is worked out here;
//! the program sends the requests and hands the answers back.

use vstd::prelude::*;

use crate::mms::{DataAccessError, Value};
use crate::text::push_str;

pub mod access;
pub mod control;
pub mod controlreports;
pub mod dataset;
pub mod directory;
pub mod file;
pub mod log;
pub mod report;
pub mod retrieve;
pub mod settinggroup;

pub use control::{
    ControlError, ControlObject, ControlOptions, ControlOutcome, ControlReply, ControlRequest,
    Operating, Stage,
};
pub use controlreports::{ControlReports, LastApplError, Termination, TerminationKey};
pub use dataset::{DataSet, DataSetEntry};
pub use directory::{AcsiClass, DirectoryEntry};
pub use file::FileReader;
pub use report::{
    decode_report, EnableCall, EnableReply, Enabling, Rcb, Report, ReportEntry, ReportSubscription,
};
pub use settinggroup::SettingGroups;

verus! {

/// Errors raised by the ACSI client.
#[derive(Debug, Clone, PartialEq, Eq)]
pub enum Error {
    /// The message of a failed MMS service.
    Mms(String),
    Access(DataAccessError),
    Client(String),
    /// The message of an operating-system error.
    Io(String),
}

impl Error {
    /// An error of the client's own.
    pub(crate) fn client(msg: &str) -> (e: Error)
        ensures
            is_client_error(e, msg@),
    {
        Error::Client(msg.to_owned())
    }

    /// The message of the error.
    pub open spec fn text(self) -> Seq<char> {
        match self {
            Error::Mms(what) => what@,
            Error::Access(code) => code.text(),
            Error::Client(what) => "client: "@ + what@,
            Error::Io(what) => "io: "@ + what@,
        }
    }

    /// Writes the message of the error.
    pub fn to_text(&self) -> (s: String)
        ensures
            s@ == self.text(),
    {
        let mut s = String::new();
        match self {
            Error::Mms(what) => push_str(&mut s, what.as_str()),
            Error::Access(code) => push_str(&mut s, code.to_text()),
            Error::Client(what) => {
                push_str(&mut s, "client: ");
                push_str(&mut s, what.as_str());
            },
            Error::Io(what) => {
                push_str(&mut s, "io: ");
                push_str(&mut s, what.as_str());
            },
        }
        assert(s@ =~= self.text());
        s
    }
}

/// Whether `e` is an error of the client's own with the given message.
pub open spec fn is_client_error(e: Error, msg: Seq<char>) -> bool {
    e matches Error::Client(what) && what@ == msg
}

/// Result alias for the ACSI client.
pub type Result<T> = std::result::Result<T, Error>;

/// `before`, `middle` and `after` in one text.
pub(crate) fn concat3(before: &str, middle: &str, after: &str) -> (s: String)
    ensures
        s@ == before@ + middle@ + after@,
{
    let mut s = before.to_owned();
    push_str(&mut s, middle);
    push_str(&mut s, after);
    s
}

/// The MMS item of an attribute below another item.
pub open spec fn sub_item(item: Seq<char>, attr: Seq<char>) -> Seq<char> {
    item + "$"@ + attr
}

/// The first value that a read brought; no value at all is an object that does
/// not exist, and an access failure in its place is that failure.
pub fn read_outcome(vals: Vec<Value>) -> (r: Result<Value>)
    ensures
        match r {
            Ok(v) => vals@.len() > 0 && v@ == vals@[0]@ && !(v@ is AccessError),
            Err(e) => if vals@.len() == 0 {
                e == Error::Access(DataAccessError::ObjectNonExistent)
            } else {
                vals@[0]@ matches crate::mms::Data::AccessError(code) && e == Error::Access(code)
            },
        },
{
    if vals.len() == 0 {
        return Err(Error::Access(DataAccessError::ObjectNonExistent));
    }
    match vals[0].as_access_error() {
        Some(code) => Err(Error::Access(code)),
        None => Ok(vals[0].clone()),
    }
}

/// The outcome of a write: the first failure reported, if any.
pub fn write_outcome(results: &Vec<Option<DataAccessError>>) -> (r: Result<()>)
    ensures
        r == (if results@.len() > 0 && results@[0] is Some {
            Err::<(), Error>(Error::Access(results@[0]->0))
        } else {
            Ok(())
        }),
{
    if results.len() > 0 {
        if let Some(code) = results[0] {
            return Err(Error::Access(code));
        }
    }
    Ok(())
}

/// Reads an attribute of a control block of the kind `what` (`RCB`, `SGCB`)
/// out of what a read brought.
pub fn attribute_outcome(what: &str, attr: &str, vals: Vec<Value>) -> (r: Result<Value>)
    ensures
        match r {
            Ok(v) => vals@.len() > 0 && v@ == vals@[0]@ && !(v@ is AccessError),
            Err(e) => if vals@.len() == 0 {
                is_client_error(e, what@ + " attribute "@ + attr@ + " missing"@)
            } else {
                vals@[0]@ matches crate::mms::Data::AccessError(code) && e == Error::Access(code)
            },
        },
{
    if vals.len() == 0 {
        let mut s = concat3(what, " attribute ", attr);
        push_str(&mut s, " missing");
        return Err(Error::Client(s));
    }
    match vals[0].as_access_error() {
        Some(code) => Err(Error::Access(code)),
        None => Ok(vals[0].clone()),
    }
}

/// The outcome of writing an attribute of a control block of the kind `what`.
pub fn attribute_write_outcome(
    what: &str,
    attr: &str,
    results: &Vec<Option<DataAccessError>>,
) -> (r: Result<()>)
    ensures
        match r {
            Ok(_) => results@.len() == 0 || results@[0] is None,
            Err(e) => results@.len() > 0 && results@[0] is Some && is_client_error(
                e,
                what@ + " write "@ + attr@ + ": "@ + results@[0]->0.text(),
            ),
        },
{
    if results.len() > 0 {
        if let Some(code) = results[0] {
            let mut s = concat3(what, " write ", attr);
            push_str(&mut s, ": ");
            push_str(&mut s, code.to_text());
            return Err(Error::Client(s));
        }
    }
    Ok(())
}

} // verus!
