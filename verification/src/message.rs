//! Messages between the panel and the link.
use crate::frame::{payload_of, TwoU32};
use vstd::prelude::*;

verus! {

/// What the panel asks of the link.
#[derive(Debug)]
pub enum ToSerial {
    /// Open the port of this name at this speed.
    Open { port: String, baud: u32 },
    /// Close the port.
    Close,
    /// Send these two numbers to the device.
    RxPair { a: u32, b: u32 },
}

/// What the link tells the panel.
#[derive(Debug)]
pub enum FromSerial {
    /// A line for the status display.
    Status(String),
    /// Two numbers that the device sent.
    RxPair { a: u32, b: u32 },
}

/// A request, as the contracts speak of it.
pub enum RequestView {
    Open { port: Seq<char>, baud: u32 },
    Close,
    RxPair { a: u32, b: u32 },
}

/// A report, as the contracts speak of it.
pub enum ReportView {
    Status(Seq<char>),
    RxPair { a: u32, b: u32 },
}

impl View for ToSerial {
    type V = RequestView;

    open spec fn view(&self) -> RequestView {
        match *self {
            ToSerial::Open { port, baud } => RequestView::Open { port: port@, baud },
            ToSerial::Close => RequestView::Close,
            ToSerial::RxPair { a, b } => RequestView::RxPair { a, b },
        }
    }
}

impl View for FromSerial {
    type V = ReportView;

    open spec fn view(&self) -> ReportView {
        match *self {
            FromSerial::Status(s) => ReportView::Status(s@),
            FromSerial::RxPair { a, b } => ReportView::RxPair { a, b },
        }
    }
}

impl ToSerial {
    /// The payload for the device. Only a pair of numbers is sent to it.
    pub fn to_payload(&self) -> (payload: Option<[u8; 8]>)
        ensures
            match self@ {
                RequestView::RxPair { a, b } => payload is Some && payload->0@ == payload_of(
                    TwoU32 { a, b },
                ),
                _ => payload is None,
            },
    {
        match self {
            ToSerial::RxPair { a, b } => {
                let payload: [u8; 8] = [
                    (*a % 0x100) as u8,
                    (*a / 0x100 % 0x100) as u8,
                    (*a / 0x1_0000 % 0x100) as u8,
                    (*a / 0x100_0000) as u8,
                    (*b % 0x100) as u8,
                    (*b / 0x100 % 0x100) as u8,
                    (*b / 0x1_0000 % 0x100) as u8,
                    (*b / 0x100_0000) as u8,
                ];
                assert(payload@ =~= payload_of(TwoU32 { a: *a, b: *b }));
                Some(payload)
            },
            _ => None,
        }
    }
}

} // verus!
