//! The errors of the system helpers.
use vstd::prelude::*;

verus! {

#[verifier::external_type_specification]
#[verifier::external_body]
pub struct ExIoError(std::io::Error);

#[verifier::external_type_specification]
#[verifier::external_body]
pub struct ExUtf8Error(std::str::Utf8Error);

#[verifier::external_type_specification]
#[verifier::external_body]
pub struct ExFromUtf8Error(std::string::FromUtf8Error);

/// What a system helper can fail with.
pub enum Error {
    /// A command exited unsuccessfully: the command as shown, and its standard error.
    CommandFailed(String, String),
    UUIDNotFound(),
    HomeNotFound(),
    NetworkNotActive(),
    NetworkActive(),
    IoError(std::io::Error),
    StrUtf8Error(std::str::Utf8Error),
    StringUtf8Error(std::string::FromUtf8Error),
}

/// The message shown for an error whose text is fixed.
pub open spec fn fixed_message(e: Error) -> Option<Seq<char>> {
    match e {
        Error::CommandFailed(cmd, err) => Some(
            "Command: "@ + cmd@ + "; Failed with Error: "@ + err@ + ";"@,
        ),
        Error::UUIDNotFound() => Some("UUID Not Found"@),
        Error::HomeNotFound() => Some("Home Directory Not Found"@),
        Error::NetworkNotActive() => Some("Network Is Not Active/Connected"@),
        Error::NetworkActive() => Some("Network Is Active/Connected"@),
        _ => None,
    }
}

impl Error {
    /// The text that describes this error; a wrapped system error is shown
    /// as that error shows itself.
    pub fn message(&self) -> (s: String)
        ensures
            fixed_message(*self) matches Some(m) ==> s@ == m,
            self matches Error::IoError(e) ==> vstd::string::to_string_from_display_ensures(e, s),
            self matches Error::StrUtf8Error(e) ==> vstd::string::to_string_from_display_ensures(
                e,
                s,
            ),
            self matches Error::StringUtf8Error(e) ==> vstd::string::to_string_from_display_ensures(
                e,
                s,
            ),
    {
        match self {
            Error::CommandFailed(cmd, err) => {
                let mut s = String::from_str("Command: ");
                s.append(cmd.as_str());
                s.append("; Failed with Error: ");
                s.append(err.as_str());
                s.append(";");
                s
            },
            Error::UUIDNotFound() => String::from_str("UUID Not Found"),
            Error::HomeNotFound() => String::from_str("Home Directory Not Found"),
            Error::NetworkNotActive() => String::from_str("Network Is Not Active/Connected"),
            Error::NetworkActive() => String::from_str("Network Is Active/Connected"),
            Error::IoError(e) => e.to_string(),
            Error::StrUtf8Error(e) => e.to_string(),
            Error::StringUtf8Error(e) => e.to_string(),
        }
    }
}

} // verus!
