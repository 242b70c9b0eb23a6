//! Errors of the data store and the status codes handed back to RPC clients.

use vstd::prelude::*;

verus! {

/// An error raised while reading from the data store.
#[derive(Debug)]
pub struct DataStoreError {
    details: String,
}

impl DataStoreError {
    /// The details that explain the error.
    pub closed spec fn spec_details(&self) -> Seq<char> {
        self.details@
    }

    pub fn new(details: String) -> (e: DataStoreError)
        ensures
            e.spec_details() == details@,
    {
        DataStoreError { details }
    }

    pub fn details(&self) -> (d: &str)
        ensures
            d@ == self.spec_details(),
    {
        self.details.as_str()
    }

    /// The text shown for the error: `DataStoreError: ` followed by its details.
    pub fn to_string(&self) -> (s: String)
        ensures
            s@ == "DataStoreError: "@ + self.spec_details(),
    {
        let mut s = String::from_str("DataStoreError: ");
        s.append(self.details.as_str());
        s
    }
}

/// The status codes that the services answer with.
#[derive(Clone, Copy, Debug, PartialEq, Eq, Structural)]
pub enum Code {
    /// The client sent a request that the service refuses.
    InvalidArgument,
    /// The service failed while serving a valid request.
    Internal,
}

/// The outcome of a refused or failed request: a code and a message for the client.
#[derive(Debug)]
pub struct Status {
    pub code: Code,
    pub message: String,
}

/// `s` has the code `code` and the message `message`.
pub open spec fn status_is(s: Status, code: Code, message: Seq<char>) -> bool {
    s.code == code && s.message@ == message
}

impl Status {
    /// A status that refuses the client's request.
    pub fn invalid_argument(message: &str) -> (s: Status)
        ensures
            status_is(s, Code::InvalidArgument, message@),
    {
        Status { code: Code::InvalidArgument, message: String::from_str(message) }
    }

    /// A status that reports a failure of the service itself.
    pub fn internal(message: &str) -> (s: Status)
        ensures
            status_is(s, Code::Internal, message@),
    {
        Status { code: Code::Internal, message: String::from_str(message) }
    }

    pub fn code(&self) -> (c: Code)
        ensures
            c == self.code,
    {
        self.code
    }

    pub fn message(&self) -> (m: &str)
        ensures
            m@ == self.message@,
    {
        self.message.as_str()
    }
}

/// The message with which a data store error reaches the client.
pub open spec fn data_store_failure_message() -> Seq<char> {
    "An error occured while accessing the data store. See system logs for details."@
}

impl DataStoreError {
    /// The status that a data store error becomes: an internal error whose message
    /// hides the details, which are only for the service's own logs.
    pub fn to_status(&self) -> (s: Status)
        ensures
            status_is(s, Code::Internal, data_store_failure_message()),
    {
        Status::internal("An error occured while accessing the data store. See system logs for details.")
    }
}

} // verus!
