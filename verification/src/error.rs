//! The crate's error type, and what a failed system call means to a collector.
//!
//! Every variant that concerns a file carries its path: "failed to parse an
//! integer" is useless to someone who reads forty files a second.

use vstd::prelude::*;

use crate::number::push_decimal;
use crate::number::decimal;
use crate::text::push_str;

verus! {

/// The kinds of system failure that the crate tells apart.
#[derive(Debug, Clone, Copy, PartialEq, Eq, Structural)]
pub enum IoErrorKind {
    NotFound,
    PermissionDenied,
    AlreadyExists,
    Interrupted,
    Other,
}

/// A failed system call: its kind, the operating system's number for it where
/// it has one, and the message it prints.
#[derive(Debug)]
pub struct IoFailure {
    pub kind: IoErrorKind,
    pub errno: Option<i32>,
    pub message: String,
}

pub struct IoFailureView {
    pub kind: IoErrorKind,
    pub errno: Option<i32>,
    pub message: Seq<char>,
}

impl View for IoFailure {
    type V = IoFailureView;

    open spec fn view(&self) -> IoFailureView {
        IoFailureView { kind: self.kind, errno: self.errno, message: self.message@ }
    }
}

impl IoFailure {
    pub fn duplicate(&self) -> (r: IoFailure)
        ensures
            r@ == self@,
    {
        IoFailure { kind: self.kind, errno: self.errno, message: self.message.clone() }
    }
}

/// Everything that can go wrong while collecting.
#[derive(Debug)]
pub enum Error {
    /// A system failure that is not an expected [`Absence`].
    Io { path: String, source: IoFailure },
    /// A file was read, but what it holds is not what the kernel documents.
    /// Lines count from one; `None` means the whole file.
    Parse { path: String, line: Option<usize>, reason: String },
    /// A path was refused: it leaves the root, or it holds an unsafe name.
    PathRejected { path: String, reason: String },
    /// The machine does not offer this at all.
    Unsupported { what: &'static str },
    /// A number would have overflowed or gone negative.
    Arithmetic { what: &'static str },
}

pub enum ErrorView {
    Io { path: Seq<char>, source: IoFailureView },
    Parse { path: Seq<char>, line: Option<usize>, reason: Seq<char> },
    PathRejected { path: Seq<char>, reason: Seq<char> },
    Unsupported { what: Seq<char> },
    Arithmetic { what: Seq<char> },
}

impl View for Error {
    type V = ErrorView;

    open spec fn view(&self) -> ErrorView {
        match *self {
            Error::Io { path, source } => ErrorView::Io { path: path@, source: source@ },
            Error::Parse { path, line, reason } => ErrorView::Parse {
                path: path@,
                line,
                reason: reason@,
            },
            Error::PathRejected { path, reason } => ErrorView::PathRejected {
                path: path@,
                reason: reason@,
            },
            Error::Unsupported { what } => ErrorView::Unsupported { what: what@ },
            Error::Arithmetic { what } => ErrorView::Arithmetic { what: what@ },
        }
    }
}

/// Why a value is not there, where that is expected.
#[derive(Debug, Clone, Copy, PartialEq, Eq, Structural)]
pub enum Absence {
    /// The file or directory does not exist on this machine.
    NotPresent,
    /// It exists, but may not be read. Usually it needs root.
    PermissionDenied,
    /// It exists and is readable, but empty or disabled by its driver.
    NotReported,
}

/// The Linux error numbers by which a driver says that a sensor has nothing
/// to report: EIO, ENXIO, ENODEV, ENODATA, EOPNOTSUPP.
pub open spec fn errno_not_reported(errno: i32) -> bool {
    errno == 5 || errno == 6 || errno == 19 || errno == 61 || errno == 95
}

/// What a system failure means: an expected absence, if any.
pub open spec fn absence_of(source: IoFailureView) -> Option<Absence> {
    match source.kind {
        IoErrorKind::NotFound => Some(Absence::NotPresent),
        IoErrorKind::PermissionDenied => Some(Absence::PermissionDenied),
        _ => match source.errno {
            Some(errno) => if errno_not_reported(errno) {
                Some(Absence::NotReported)
            } else {
                None
            },
            None => None,
        },
    }
}

/// A system failure on `path`: an absence where it is an expected one, else
/// an error that carries the path.
pub open spec fn classified(path: Seq<char>, source: IoFailureView) -> Result<Absence, ErrorView> {
    match absence_of(source) {
        Some(absence) => Ok(absence),
        None => Err(ErrorView::Io { path, source }),
    }
}

/// The message that an error prints.
pub open spec fn message_of(e: ErrorView) -> Seq<char> {
    match e {
        ErrorView::Io { path, source } => "reading "@ + path + ": "@ + source.message,
        ErrorView::Parse { path, line: Some(line), reason } => "parsing "@ + path + ":"@ + decimal(
            line as nat,
        ) + ": "@ + reason,
        ErrorView::Parse { path, line: None, reason } => "parsing "@ + path + ": "@ + reason,
        ErrorView::PathRejected { path, reason } => "refusing path "@ + path + ": "@ + reason,
        ErrorView::Unsupported { what } => "not available on this system: "@ + what,
        ErrorView::Arithmetic { what } => "arithmetic error: "@ + what,
    }
}

/// The path that an error carries, if any.
pub open spec fn path_of(e: ErrorView) -> Option<Seq<char>> {
    match e {
        ErrorView::Io { path, .. } => Some(path),
        ErrorView::Parse { path, .. } => Some(path),
        ErrorView::PathRejected { path, .. } => Some(path),
        ErrorView::Unsupported { .. } => None,
        ErrorView::Arithmetic { .. } => None,
    }
}

/// An error that concerns a path names it in its message.
pub proof fn the_message_names_the_path(e: ErrorView)
    requires
        path_of(e) is Some,
    ensures
        exists|i: int|
            0 <= i <= message_of(e).len() - path_of(e)->0.len() && #[trigger] message_of(
                e,
            ).subrange(i, i + path_of(e)->0.len()) == path_of(e)->0,
{
    let m = message_of(e);
    let p = path_of(e)->0;
    let i: int = match e {
        ErrorView::Io { .. } => "reading "@.len() as int,
        ErrorView::Parse { .. } => "parsing "@.len() as int,
        _ => "refusing path "@.len() as int,
    };
    assert(m.subrange(i, i + p.len()) == p);
}

pub open spec fn absence_view(r: Result<Absence, Error>) -> Result<Absence, ErrorView> {
    match r {
        Ok(absence) => Ok(absence),
        Err(e) => Err(e@),
    }
}

impl Error {
    /// The path that the error concerns, if it has one.
    pub fn path(&self) -> (r: Option<&String>)
        ensures
            match r {
                Some(path) => path_of(self@) == Some(path@),
                None => path_of(self@) is None,
            },
    {
        match self {
            Error::Io { path, .. } => Some(path),
            Error::Parse { path, .. } => Some(path),
            Error::PathRejected { path, .. } => Some(path),
            Error::Unsupported { .. } => None,
            Error::Arithmetic { .. } => None,
        }
    }

    /// Tells an expected absence from a failure. The one place where the
    /// operating system's answers get their meaning.
    pub fn classify_io(path: &str, source: IoFailure) -> (r: Result<Absence, Error>)
        ensures
            absence_view(r) == classified(path@, source@),
    {
        match source.kind {
            IoErrorKind::NotFound => return Ok(Absence::NotPresent),
            IoErrorKind::PermissionDenied => return Ok(Absence::PermissionDenied),
            _ => {},
        }
        if let Some(errno) = source.errno {
            if errno == 5 || errno == 6 || errno == 19 || errno == 61 || errno == 95 {
                return Ok(Absence::NotReported);
            }
        }
        Err(Error::Io { path: path.to_owned(), source })
    }

    /// A parse error. The reason is shown to people, so text that came out of
    /// a file is sanitised before it goes into one.
    pub fn parse(path: &str, line: Option<usize>, reason: String) -> (r: Error)
        ensures
            r@ == (ErrorView::Parse { path: path@, line, reason: reason@ }),
    {
        Error::Parse { path: path.to_owned(), line, reason }
    }

    pub fn rejected(path: &str, reason: &str) -> (r: Error)
        ensures
            r@ == (ErrorView::PathRejected { path: path@, reason: reason@ }),
    {
        Error::PathRejected { path: path.to_owned(), reason: reason.to_owned() }
    }

    /// The message of the error, with its path.
    pub fn to_string(&self) -> (r: String)
        ensures
            r@ == message_of(self@),
    {
        let mut out: String = String::new();
        match self {
            Error::Io { path, source } => {
                push_str(&mut out, "reading ");
                push_str(&mut out, path.as_str());
                push_str(&mut out, ": ");
                push_str(&mut out, source.message.as_str());
            },
            Error::Parse { path, line, reason } => {
                push_str(&mut out, "parsing ");
                push_str(&mut out, path.as_str());
                if let Some(line) = line {
                    push_str(&mut out, ":");
                    push_decimal(&mut out, *line as u64);
                }
                push_str(&mut out, ": ");
                push_str(&mut out, reason.as_str());
            },
            Error::PathRejected { path, reason } => {
                push_str(&mut out, "refusing path ");
                push_str(&mut out, path.as_str());
                push_str(&mut out, ": ");
                push_str(&mut out, reason.as_str());
            },
            Error::Unsupported { what } => {
                push_str(&mut out, "not available on this system: ");
                push_str(&mut out, what);
            },
            Error::Arithmetic { what } => {
                push_str(&mut out, "arithmetic error: ");
                push_str(&mut out, what);
            },
        }
        assert(out@ == message_of(self@));
        out
    }

    /// The system failure underneath, which only [`Error::Io`] has.
    pub fn source(&self) -> (r: Option<&IoFailure>)
        ensures
            match self@ {
                ErrorView::Io { source, .. } => r is Some && r->0@ == source,
                _ => r is None,
            },
    {
        match self {
            Error::Io { source, .. } => Some(source),
            _ => None,
        }
    }
}

/// What is missing, forbidden or not reported is no error, and every other failure
/// is one that carries its path and its cause.
pub proof fn failures_are_told_apart(path: Seq<char>, source: IoFailureView)
    ensures
        source.kind == IoErrorKind::NotFound ==> classified(path, source) == Ok::<
            Absence,
            ErrorView,
        >(Absence::NotPresent),
        source.kind == IoErrorKind::PermissionDenied ==> classified(path, source) == Ok::<
            Absence,
            ErrorView,
        >(Absence::PermissionDenied),
        source.kind != IoErrorKind::NotFound && source.kind != IoErrorKind::PermissionDenied && (
        source.errno matches Some(n) && (n == 5 || n == 6 || n == 19 || n == 61 || n == 95))
            ==> classified(path, source) == Ok::<Absence, ErrorView>(Absence::NotReported),
        source.kind != IoErrorKind::NotFound && source.kind != IoErrorKind::PermissionDenied && !(
        source.errno matches Some(n) && (n == 5 || n == 6 || n == 19 || n == 61 || n == 95))
            ==> classified(path, source) == Err::<Absence, ErrorView>(
            ErrorView::Io { path, source },
        ),
{
}

/// The message of an error ends in its reason, and names the line where there is
/// one.
pub proof fn the_message_gives_the_reason(path: Seq<char>, line: usize, reason: Seq<char>)
    ensures
        ({
            let m = message_of(ErrorView::Parse { path, line: Some(line), reason });
            let n = message_of(ErrorView::Parse { path, line: None, reason });
            let r = message_of(ErrorView::PathRejected { path, reason });
            &&& m == "parsing "@ + path + ":"@ + decimal(line as nat) + ": "@ + reason
            &&& n == "parsing "@ + path + ": "@ + reason
            &&& r == "refusing path "@ + path + ": "@ + reason
            &&& m.skip(m.len() - reason.len()) == reason
            &&& n.skip(n.len() - reason.len()) == reason
            &&& r.skip(r.len() - reason.len()) == reason
        }),
{
    let m = message_of(ErrorView::Parse { path, line: Some(line), reason });
    let n = message_of(ErrorView::Parse { path, line: None, reason });
    let r = message_of(ErrorView::PathRejected { path, reason });
    assert(m.skip(m.len() - reason.len()) =~= reason);
    assert(n.skip(n.len() - reason.len()) =~= reason);
    assert(r.skip(r.len() - reason.len()) =~= reason);
}

} // verus!
