//! Raw layer-2 access for the GOOSE and Sampled Values transports.
//!
//! [`Frame`] marshalling is a pure function, so the codecs above are testable
//! without a socket, and [`pipe`] gives an in-memory segment for tests and
//! simulation. [`afpacket`] holds the decisions of a raw-socket backend.

use vstd::prelude::*;

use crate::text::push_str;

pub mod afpacket;
pub mod frame;
pub mod pipe;

pub use frame::{parse_frame, Frame, VlanTag};
pub use pipe::{pipe, PipeEnd};

verus! {

/// EtherType values used by the IEC 61850 layer-2 protocols.
pub const ETHER_TYPE_GOOSE: u16 = 0x88b8;

pub const ETHER_TYPE_SV: u16 = 0x88ba;

/// The 802.1Q tag protocol identifier.
pub const ETHER_TYPE_VLAN: u16 = 0x8100;

/// Errors raised by the layer-2 transport.
#[derive(Debug, Clone, PartialEq, Eq)]
pub enum Error {
    /// A frame or an interface that cannot be used, and why.
    Frame(String),
    /// The message of an operating-system error.
    Io(String),
    Closed,
    Unsupported,
}

impl Error {
    /// The message of the error.
    pub open spec fn text(self) -> Seq<char> {
        match self {
            Error::Frame(what) => "ethernet: "@ + what@,
            Error::Io(what) => "ethernet: "@ + what@,
            Error::Closed => "ethernet: the interface is closed"@,
            Error::Unsupported =>
                "ethernet: raw layer-2 access is not supported on this platform; use pipe() for tests"@,
        }
    }

    /// Writes the message of the error.
    pub fn to_text(&self) -> (s: String)
        ensures
            s@ == self.text(),
    {
        let mut s = String::new();
        match self {
            Error::Frame(what) => {
                push_str(&mut s, "ethernet: ");
                push_str(&mut s, what.as_str());
            },
            Error::Io(what) => {
                push_str(&mut s, "ethernet: ");
                push_str(&mut s, what.as_str());
            },
            Error::Closed => push_str(&mut s, "ethernet: the interface is closed"),
            Error::Unsupported => push_str(
                &mut s,
                "ethernet: raw layer-2 access is not supported on this platform; use pipe() for tests",
            ),
        }
        assert(s@ =~= self.text());
        s
    }
}

/// Result alias for the layer-2 transport.
pub type Result<T> = std::result::Result<T, Error>;

} // verus!
