//! The errors of the control plane and how they read.

use vstd::prelude::*;

use crate::text::concat2;

verus! {

/// How the `Debug` form of a `std::time::Duration` of so many seconds and
/// nanoseconds reads.
pub uninterp spec fn duration_text(secs: u64, nanos: u32) -> Seq<char>;

/// Writes a duration with `std::fmt`'s `Debug` for `std::time::Duration`, such
/// as `12s` or `1.5s`. The contract only names the text, which depends on
/// nothing but the two numbers.
#[verifier::external_body]
fn write_duration(secs: u64, nanos: u32) -> (r: String)
    requires
        nanos < 1_000_000_000,
    ensures
        r@ == duration_text(secs, nanos),
{
    format!("{:?}", std::time::Duration::new(secs, nanos))
}

/// A time limit: whole seconds and the nanoseconds beyond them.
#[derive(Debug, Clone, Copy)]
pub struct Limit {
    pub secs: u64,
    pub nanos: u32,
}

/// Why a command did not run to success.
#[derive(Debug)]
pub enum ExecError {
    Timeout(Limit),
    Failed(String),
    Io(String),
}

/// Why a file could not be listed or read.
#[derive(Debug)]
pub enum FileError {
    Escape,
    Exec(ExecError),
    Other(String),
}

/// Why a network or container operation did not succeed.
#[derive(Debug)]
pub enum NetError {
    Mac(String),
    Io(String),
    Other(String),
}

impl ExecError {
    /// Is the time limit, if there is one, a proper one?
    pub open spec fn wf(self) -> bool {
        self matches ExecError::Timeout(t) ==> t.nanos < 1_000_000_000
    }

    /// How the error reads.
    pub open spec fn reads(self) -> Seq<char> {
        match self {
            ExecError::Timeout(t) => "ssh timed out after "@ + duration_text(t.secs, t.nanos),
            ExecError::Failed(m) => m@,
            ExecError::Io(m) => "io: "@ + m@,
        }
    }

    /// How the error reads.
    pub fn message(&self) -> (r: String)
        requires
            self.wf(),
        ensures
            r@ == self.reads(),
    {
        match self {
            ExecError::Timeout(t) => {
                let d = write_duration(t.secs, t.nanos);
                concat2("ssh timed out after ", d.as_str())
            },
            ExecError::Failed(m) => m.clone(),
            ExecError::Io(m) => concat2("io: ", m.as_str()),
        }
    }
}

impl FileError {
    /// Is the time limit, if there is one, a proper one?
    pub open spec fn wf(self) -> bool {
        self matches FileError::Exec(e) ==> e.wf()
    }

    /// How the error reads.
    pub open spec fn reads(self) -> Seq<char> {
        match self {
            FileError::Escape => "path escapes the listing root"@,
            FileError::Exec(e) => e.reads(),
            FileError::Other(m) => m@,
        }
    }

    /// How the error reads.
    pub fn message(&self) -> (r: String)
        requires
            self.wf(),
        ensures
            r@ == self.reads(),
    {
        match self {
            FileError::Escape => String::from_str("path escapes the listing root"),
            FileError::Exec(e) => e.message(),
            FileError::Other(m) => m.clone(),
        }
    }
}

impl NetError {
    /// How the error reads.
    pub open spec fn reads(self) -> Seq<char> {
        match self {
            NetError::Mac(m) => "invalid MAC address: "@ + m@,
            NetError::Io(m) => "io: "@ + m@,
            NetError::Other(m) => m@,
        }
    }

    /// How the error reads.
    pub fn message(&self) -> (r: String)
        ensures
            r@ == self.reads(),
    {
        match self {
            NetError::Mac(m) => concat2("invalid MAC address: ", m.as_str()),
            NetError::Io(m) => concat2("io: ", m.as_str()),
            NetError::Other(m) => m.clone(),
        }
    }
}

/// What failed with a message reads as that message; what failed for want of
/// access says so in front of it; a timeout says after how long.
pub proof fn errors_read_as_their_reasons(m: String, t: Limit)
    ensures
        ExecError::Failed(m).reads() == m@,
        ExecError::Io(m).reads() == "io: "@ + m@,
        ExecError::Timeout(t).reads() == "ssh timed out after "@ + duration_text(t.secs, t.nanos),
        FileError::Escape.reads() == "path escapes the listing root"@,
        FileError::Other(m).reads() == m@,
        FileError::Exec(ExecError::Failed(m)).reads() == m@,
        FileError::Exec(ExecError::Io(m)).reads() == "io: "@ + m@,
        FileError::Exec(ExecError::Timeout(t)).reads() == "ssh timed out after "@ + duration_text(
            t.secs,
            t.nanos,
        ),
        NetError::Mac(m).reads() == "invalid MAC address: "@ + m@,
        NetError::Io(m).reads() == "io: "@ + m@,
        NetError::Other(m).reads() == m@,
{
}

} // verus!
