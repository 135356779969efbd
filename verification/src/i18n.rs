//! Request localization: which language a request asks for, and the errors
//! the localization layer can raise.

use vstd::prelude::*;
use vstd::string::StringExecFns;

verus! {

/// The languages bundled with the application are declared to the template
/// loader at startup; nothing is computed here.
pub fn get_supported_languages() {
}

/// A request guard carrying the language of the current request.
pub struct I18n {
    /// The language of the current request.
    pub lang: String,
}

impl I18n {
    /// The language a request asks for: its `Accept-Language` header when it
    /// sends one, and `en` otherwise.
    pub fn from_header(header: Option<String>) -> (r: I18n)
        ensures
            r.lang@ == (match header {
                Some(h) => h@,
                None => "en"@,
            }),
    {
        match header {
            Some(h) => I18n { lang: h },
            None => I18n { lang: String::from_str("en") },
        }
    }
}

/// Raised when no translations exist for a requested locale.
#[derive(Debug)]
pub struct MissingTranslationsError(pub String);

impl MissingTranslationsError {
    /// What went wrong, for logs: the message names the locale.
    pub fn message(&self) -> (r: String)
        ensures
            r@ == "Could not find translations for "@ + self.0@,
    {
        String::from_str("Could not find translations for ").concat(self.0.as_str())
    }
}

/// Raised when the shared application state cannot be reached.
#[derive(Debug)]
pub struct MissingStateError;

impl MissingStateError {
    /// What went wrong, for logs.
    pub fn message(&self) -> (r: String)
        ensures
            r@ == "Could not retrieve state"@,
    {
        String::from_str("Could not retrieve state")
    }
}

} // verus!
