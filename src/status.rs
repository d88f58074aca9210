use vstd::prelude::*;

verus! {

/// The coarse category of an HTTP status code.
#[derive(Debug, Clone, Copy, PartialEq, Eq, Structural)]
pub enum StatusKind {
    /// 1xx
    Informational,
    /// 2xx
    Successful,
    /// 3xx
    Redirection,
    /// 4xx
    ClientError,
    /// 5xx
    ServerError,
    /// Anything outside 100..=599.
    Unknown,
}

/// The category of `code`, decided by its hundreds digit.
pub open spec fn kind_of(code: u16) -> StatusKind {
    let h = code / 100;
    if h == 1 {
        StatusKind::Informational
    } else if h == 2 {
        StatusKind::Successful
    } else if h == 3 {
        StatusKind::Redirection
    } else if h == 4 {
        StatusKind::ClientError
    } else if h == 5 {
        StatusKind::ServerError
    } else {
        StatusKind::Unknown
    }
}

/// Whether a status of this kind must be escalated to fault reporting.
pub open spec fn kind_needs_throw(kind: StatusKind) -> bool {
    kind is ServerError || kind is Unknown
}

impl StatusKind {
    /// Classifies a status code by `code / 100`.
    pub fn infer(status_code: u16) -> (kind: StatusKind)
        ensures
            kind == kind_of(status_code),
    {
        let h: u16 = status_code / 100;
        if h == 1 {
            StatusKind::Informational
        } else if h == 2 {
            StatusKind::Successful
        } else if h == 3 {
            StatusKind::Redirection
        } else if h == 4 {
            StatusKind::ClientError
        } else if h == 5 {
            StatusKind::ServerError
        } else {
            StatusKind::Unknown
        }
    }
}

pub const BAD_REQUEST: u16 = 400;

pub const NOT_FOUND: u16 = 404;

pub const INTERNAL_SERVER_ERROR: u16 = 500;

/// A failure carrying an HTTP status code, its kind, a message and whether
/// the message may be shown to the client.
#[derive(Debug, Clone)]
pub struct Status {
    pub status_code: u16,
    pub kind: StatusKind,
    pub data: String,
    pub expose: bool,
}

impl Status {
    /// The kind always agrees with the code.
    pub open spec fn wf(&self) -> bool {
        self.kind == kind_of(self.status_code)
    }

    pub fn new(status_code: u16, data: String, expose: bool) -> (s: Status)
        ensures
            s.wf(),
            s.status_code == status_code,
            s.data@ == data@,
            s.expose == expose,
    {
        Status { status_code, kind: StatusKind::infer(status_code), data, expose }
    }

    /// True iff the failure must reach fault reporting rather than be
    /// rendered as an ordinary response.
    pub fn need_throw(&self) -> (r: bool)
        ensures
            r == kind_needs_throw(self.kind),
    {
        self.kind == StatusKind::ServerError || self.kind == StatusKind::Unknown
    }

    /// A lower-level failure (I/O, malformed protocol data): a hidden 500
    /// carrying the underlying description.
    pub fn internal(description: String) -> (s: Status)
        ensures
            s.wf(),
            s.status_code == INTERNAL_SERVER_ERROR,
            s.kind is ServerError,
            s.data@ == description@,
            !s.expose,
    {
        Status::new(INTERNAL_SERVER_ERROR, description, false)
    }
}

} // verus!
