use vstd::prelude::*;
use vstd::string::StringExecFns;

verus! {

/// What a failed operation reports.
#[derive(Debug)]
pub enum Error {
    /// The input text is not valid JSON; carries the parser's diagnostic.
    JSONParsing(String),
    /// A requested path does not exist or runs through a non-object; carries
    /// the offending path.
    JSONStringify(String),
    NotImplemented,
}

/// The model of an [`Error`].
pub enum ErrorV {
    Parsing(Seq<char>),
    Stringify(Seq<char>),
    NotImplemented,
}

impl View for Error {
    type V = ErrorV;

    open spec fn view(&self) -> ErrorV {
        match self {
            Error::JSONParsing(m) => ErrorV::Parsing(m@),
            Error::JSONStringify(m) => ErrorV::Stringify(m@),
            Error::NotImplemented => ErrorV::NotImplemented,
        }
    }
}

impl Error {
    /// The error spelled out for a reader, one line.
    pub fn message(&self) -> (r: String)
        ensures
            r@ == (match self@ {
                ErrorV::Parsing(m) => "Error while parsing JSON "@ + m,
                ErrorV::Stringify(m) => "Error while stringifying JSON: "@ + m,
                ErrorV::NotImplemented => "Not implemented yet"@,
            }),
    {
        match self {
            Error::JSONParsing(m) => {
                let mut s = String::from_str("Error while parsing JSON ");
                s.append(m.as_str());
                s
            },
            Error::JSONStringify(m) => {
                let mut s = String::from_str("Error while stringifying JSON: ");
                s.append(m.as_str());
                s
            },
            Error::NotImplemented => String::from_str("Not implemented yet"),
        }
    }
}

} // verus!
