//! Error and Result handling
//!
//! The library spans a large surface, from the link layer up to the
//! functions that services call. No errors of lower layers are wrapped
//! here; instead `Error` lists the ways in which a call can fail, and
//! leaves it to the caller to read them in their context.

use crate::text::same_text;
use vstd::prelude::*;

verus! {

/// Service API error states
#[derive(Copy, Clone, Debug, PartialEq, Eq, Structural)]
pub enum Error {
    /// Not authorised to perform this action
    NotAuthorised,
    /// The desired user was not known
    NoUser,
    /// The provided contact already exists
    ContactExists,
    /// The desired contact does not exist
    NoContact,
    /// Invalid search query
    InvalidQuery,
    /// No data was returned for the provided query
    NoData,
    /// Invalid payload (probably too big)
    InvalidPayload,
    /// A function callback timed out
    CallbackTimeout,
    /// Signature with an unknown public key
    NoSign,
    /// Fraudulent signature for a known public key
    BadSign,
    /// A generic networking error occured
    NetworkFault,
    /// Failed to find a route to this user
    NoRoute,
    /// Some serialisation action failed
    BadSerialise,
    /// No such service was found
    NoService,
    /// A sevice with this name already exists
    ServiceExists,
    /// Some internal components failed to communicate
    CommFault,
}

/// The sentence that describes an error.
pub open spec fn message_of(e: Error) -> Seq<char> {
    match e {
        Error::NotAuthorised => "Not authorised to perform this action"@,
        Error::NoUser => "The desired user was not known"@,
        Error::ContactExists => "The provided contact already exists"@,
        Error::NoContact => "The desired contact does not exist"@,
        Error::InvalidQuery => "Invalid search query"@,
        Error::NoData => "No data was returned for the provided query"@,
        Error::InvalidPayload => "Invalid payload (probably too big)"@,
        Error::CallbackTimeout => "A function callback timed out"@,
        Error::NoSign => "Signature with an unknown public key"@,
        Error::BadSign => "Fraudulent signature for a known public key"@,
        Error::NetworkFault => "A generic networking error occured"@,
        Error::NoRoute => "Failed to find a route to this user"@,
        Error::BadSerialise => "Some serialisation action failed"@,
        Error::NoService => "No such service was found"@,
        Error::ServiceExists => "A sevice with this name already exists"@,
        Error::CommFault => "Some internal components failed to communicate"@,
    }
}

/// The general help text in the language `lang`, English where the
/// language is not known or none is given.
pub open spec fn help_in(lang: Option<Seq<char>>) -> Seq<char> {
    if lang == Some("ar"@) {
        "حدث خطأ غير معروف"@
    } else if lang == Some("de"@) {
        "Ein unbekannter Fehler ist aufgetreten"@
    } else {
        "An unknown Error occured"@
    }
}

impl Error {
    /// The sentence that describes this error.
    pub fn message(&self) -> (r: &'static str)
        ensures
            r@ == message_of(*self),
    {
        match self {
            Error::NotAuthorised => "Not authorised to perform this action",
            Error::NoUser => "The desired user was not known",
            Error::ContactExists => "The provided contact already exists",
            Error::NoContact => "The desired contact does not exist",
            Error::InvalidQuery => "Invalid search query",
            Error::NoData => "No data was returned for the provided query",
            Error::InvalidPayload => "Invalid payload (probably too big)",
            Error::CallbackTimeout => "A function callback timed out",
            Error::NoSign => "Signature with an unknown public key",
            Error::BadSign => "Fraudulent signature for a known public key",
            Error::NetworkFault => "A generic networking error occured",
            Error::NoRoute => "Failed to find a route to this user",
            Error::BadSerialise => "Some serialisation action failed",
            Error::NoService => "No such service was found",
            Error::ServiceExists => "A sevice with this name already exists",
            Error::CommFault => "Some internal components failed to communicate",
        }
    }

    /// The error as text, as it is shown to a user.
    pub fn to_string(&self) -> (r: String)
        ensures
            r@ == message_of(*self),
    {
        self.message().to_owned()
    }

    /// A plain text description of what went wrong, in the language that
    /// the caller found configured (`ar`, `de`), or in English.
    pub fn help(&self, lang: Option<&str>) -> (r: String)
        ensures
            r@ == help_in(
                match lang {
                    Some(l) => Some(l@),
                    None => None,
                },
            ),
    {
        let text = match lang {
            Some(l) => {
                if same_text(l, "ar") {
                    "حدث خطأ غير معروف"
                } else if same_text(l, "de") {
                    "Ein unbekannter Fehler ist aufgetreten"
                } else {
                    "An unknown Error occured"
                }
            },
            None => "An unknown Error occured",
        };
        text.to_owned()
    }
}

} // verus!
