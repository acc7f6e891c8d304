//! Error type for setup and runtime failures.

use vstd::prelude::*;
use vstd::string::StringExecFns;

verus! {

/// Errors that can occur during setup or runtime. Messages of underlying
/// operating-system errors are carried as text.
#[derive(Debug)]
pub enum Error {
    /// Requested device path does not exist.
    DeviceNotFound(String),
    /// Failed to open the input device.
    OpenDevice { path: String, source: String },
    /// No keyboard devices found (permissions or udev).
    NoKeyboards,
    /// UInput device creation failed (e.g. permission to /dev/uinput).
    UInputFailed(String),
    /// No valid keys specified (all names unknown or empty list).
    InvalidKeys,
    /// Failed to grab the keyboard device.
    GrabFailed(String),
    /// Failed to set up signal handlers.
    SignalHandler(String),
}

/// The text that describes an error.
pub open spec fn error_message(e: Error) -> Seq<char> {
    match e {
        Error::DeviceNotFound(path) => "Device path does not exist: "@ + path@,
        Error::OpenDevice { path, source } => "Failed to open "@ + path@ + ": "@ + source@,
        Error::NoKeyboards => "No keyboard devices found. Check: groups (input), udev rules, --device /dev/input/eventX"@,
        Error::UInputFailed(msg) => "UInput failed: "@ + msg@,
        Error::InvalidKeys => "No valid keys specified"@,
        Error::GrabFailed(msg) => "Failed to grab device: "@ + msg@,
        Error::SignalHandler(msg) => "Could not set signal handlers: "@ + msg@,
    }
}

/// The advice printed after an error: where to look for permission problems.
pub open spec fn error_hint(e: Error) -> Option<Seq<char>> {
    match e {
        Error::NoKeyboards | Error::DeviceNotFound(_) | Error::OpenDevice { .. } => Some(
            "See README.md for udev rules and input group."@,
        ),
        Error::UInputFailed(_) => Some("Make sure you have permissions to /dev/uinput"@),
        _ => None,
    }
}

/// `prefix` followed by `rest`, as a new string.
fn joined(prefix: &str, rest: &str) -> (s: String)
    ensures
        s@ == prefix@ + rest@,
{
    let mut s = prefix.to_owned();
    s.append(rest);
    s
}

impl Error {
    /// The text that describes this error.
    pub fn message(&self) -> (m: String)
        ensures
            m@ == error_message(*self),
    {
        match self {
            Error::DeviceNotFound(path) => joined("Device path does not exist: ", path.as_str()),
            Error::OpenDevice { path, source } => {
                let mut m = joined("Failed to open ", path.as_str());
                m.append(": ");
                m.append(source.as_str());
                m
            },
            Error::NoKeyboards => "No keyboard devices found. Check: groups (input), udev rules, --device /dev/input/eventX".to_owned(),
            Error::UInputFailed(msg) => joined("UInput failed: ", msg.as_str()),
            Error::InvalidKeys => "No valid keys specified".to_owned(),
            Error::GrabFailed(msg) => joined("Failed to grab device: ", msg.as_str()),
            Error::SignalHandler(msg) => joined("Could not set signal handlers: ", msg.as_str()),
        }
    }

    /// The advice to print after this error, if any.
    pub fn hint(&self) -> (h: Option<&'static str>)
        ensures
            match h {
                Some(t) => error_hint(*self) == Some(t@),
                None => error_hint(*self) is None,
            },
    {
        match self {
            Error::NoKeyboards | Error::DeviceNotFound(_) | Error::OpenDevice { .. } => Some(
                "See README.md for udev rules and input group.",
            ),
            Error::UInputFailed(_) => Some("Make sure you have permissions to /dev/uinput"),
            _ => None,
        }
    }
}

} // verus!
