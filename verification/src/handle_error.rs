//! Why a handle could not be used.
use vstd::prelude::*;
use vstd::string::*;

use crate::handle_table::RawFd;
use crate::text::{i32_to_string, signed_decimal};

verus! {

/// Why a handle could not be used.
#[derive(Debug, Clone, Copy, PartialEq, Eq, Structural)]
pub enum HandleError {
    /// Other handles refer to the same descriptor.
    Shared { fd: RawFd },
    /// The handle owns no descriptor.
    Unowned { fd: RawFd },
    /// The descriptor of the handle was taken by someone else. `reference` is the descriptor that
    /// the handle was made with.
    Taken { reference: RawFd, fd: RawFd },
    /// No descriptor was received for a handle that owns the descriptor `hint`.
    NotReceived { hint: RawFd },
    /// No descriptor was received for a handle that was made with the descriptor `reference` and
    /// owns the descriptor `fd`.
    Missing { reference: RawFd, fd: RawFd },
}

impl HandleError {
    /// The message of the error.
    pub open spec fn message(self) -> Seq<char> {
        match self {
            HandleError::Shared { fd } => "attempting to unwrap FD from shared platform handle (fd: "@
                + signed_decimal(fd as int) + ")"@,
            HandleError::Unowned { fd } =>
            "attempting to accesss FD from unowned platform handle (fd: "@ + signed_decimal(
                fd as int,
            ) + ")"@,
            HandleError::Taken { reference, fd } =>
            "attempting to unwrap FD from unowned platform handle (fd: "@ + signed_decimal(
                reference as int,
            ) + " ("@ + signed_decimal(fd as int) + "))"@,
            HandleError::NotReceived { hint } => "can't provide expected handle for hint: "@
                + signed_decimal(hint as int),
            HandleError::Missing { reference, fd } =>
            "can't provide expected handle for hint: PlatformHandle { fd: "@ + signed_decimal(
                reference as int,
            ) + ", inner: PlatformHandleInner { fd: "@ + signed_decimal(fd as int) + " } }"@,
        }
    }

    /// The message of the error.
    pub fn to_string(&self) -> (r: String)
        ensures
            r@ == self.message(),
    {
        match self {
            HandleError::Shared { fd } => {
                String::from_str(
                    "attempting to unwrap FD from shared platform handle (fd: ",
                ).concat(i32_to_string(*fd).as_str()).concat(")")
            },
            HandleError::Unowned { fd } => {
                String::from_str(
                    "attempting to accesss FD from unowned platform handle (fd: ",
                ).concat(i32_to_string(*fd).as_str()).concat(")")
            },
            HandleError::Taken { reference, fd } => {
                String::from_str(
                    "attempting to unwrap FD from unowned platform handle (fd: ",
                ).concat(i32_to_string(*reference).as_str()).concat(" (").concat(
                    i32_to_string(*fd).as_str(),
                ).concat("))")
            },
            HandleError::NotReceived { hint } => {
                String::from_str("can't provide expected handle for hint: ").concat(
                    i32_to_string(*hint).as_str(),
                )
            },
            HandleError::Missing { reference, fd } => {
                String::from_str(
                    "can't provide expected handle for hint: PlatformHandle { fd: ",
                ).concat(i32_to_string(*reference).as_str()).concat(
                    ", inner: PlatformHandleInner { fd: ",
                ).concat(i32_to_string(*fd).as_str()).concat(" } }")
            },
        }
    }
}

/// A message tells of the descriptors that the error is about, in decimal notation, and where it
/// tells of two, in the order in which the handle got them.
pub proof fn message_tells_of_the_descriptors(fd: RawFd, reference: RawFd)
    ensures
        (HandleError::Shared { fd }).message()
            == "attempting to unwrap FD from shared platform handle (fd: "@ + signed_decimal(
            fd as int,
        ) + ")"@,
        (HandleError::Unowned { fd }).message()
            == "attempting to accesss FD from unowned platform handle (fd: "@ + signed_decimal(
            fd as int,
        ) + ")"@,
        (HandleError::Taken { reference, fd }).message()
            == "attempting to unwrap FD from unowned platform handle (fd: "@ + signed_decimal(
            reference as int,
        ) + " ("@ + signed_decimal(fd as int) + "))"@,
        (HandleError::NotReceived { hint: fd }).message()
            == "can't provide expected handle for hint: "@ + signed_decimal(fd as int),
        (HandleError::Missing { reference, fd }).message()
            == "can't provide expected handle for hint: PlatformHandle { fd: "@ + signed_decimal(
            reference as int,
        ) + ", inner: PlatformHandleInner { fd: "@ + signed_decimal(fd as int) + " } }"@,
{
}

} // verus!
