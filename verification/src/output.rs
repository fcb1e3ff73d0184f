//! Output formats, and text assembled for output.
use vstd::prelude::*;

use crate::from_delta::push_lit;
use crate::text::{chars_of, push_all, string_of};

verus! {

/// Output format of the command line tool.
#[derive(Debug, Clone, Copy, PartialEq, Eq, Structural)]
pub enum Format {
    Text,
    Json,
    Tsv,
    Md,
}

/// `str::to_lowercase` of `s` (Unicode lowercase mapping).
pub uninterp spec fn lowercase(s: Seq<char>) -> Seq<char>;

/// `str::to_lowercase`; its result is named, being a function of the text.
#[verifier::external_body]
pub(crate) fn to_lowercase(s: &str) -> (r: String)
    ensures
        r@ == lowercase(s@),
{
    s.to_lowercase()
}

/// The format a name selects (names compared after lowercasing).
pub open spec fn format_named(s: Seq<char>) -> Option<Format> {
    let l = lowercase(s);
    if l == "text"@ {
        Some(Format::Text)
    } else if l == "json"@ {
        Some(Format::Json)
    } else if l == "tsv"@ {
        Some(Format::Tsv)
    } else if l == "md"@ || l == "markdown"@ {
        Some(Format::Md)
    } else {
        None
    }
}

pub open spec fn format_name(f: Format) -> Seq<char> {
    match f {
        Format::Text => "text"@,
        Format::Json => "json"@,
        Format::Tsv => "tsv"@,
        Format::Md => "md"@,
    }
}

impl Format {
    /// The format a name selects: `text`, `json`, `tsv`, `md` or `markdown`,
    /// in any case.
    pub fn parse(s: &str) -> (r: Result<Format, String>)
        ensures
            match format_named(s@) {
                Some(f) => r == Ok::<Format, String>(f),
                None => r matches Err(e) && e@ == "unknown format: "@ + s@,
            },
    {
        let l = to_lowercase(s);
        let ls = l.as_str();
        if crate::text::str_is(ls, "text") {
            Ok(Format::Text)
        } else if crate::text::str_is(ls, "json") {
            Ok(Format::Json)
        } else if crate::text::str_is(ls, "tsv") {
            Ok(Format::Tsv)
        } else if crate::text::str_is(ls, "md") || crate::text::str_is(ls, "markdown") {
            Ok(Format::Md)
        } else {
            let mut e = chars_of("unknown format: ");
            let sc = chars_of(s);
            push_all(&mut e, sc.as_slice());
            Err(string_of(e.as_slice()))
        }
    }

    /// The name of the format (its text form).
    pub fn as_str(&self) -> (s: &'static str)
        ensures
            s@ == format_name(*self),
    {
        match self {
            Format::Text => "text",
            Format::Json => "json",
            Format::Tsv => "tsv",
            Format::Md => "md",
        }
    }
}

impl std::str::FromStr for Format {
    type Err = String;

    fn from_str(s: &str) -> (r: Result<Format, String>)
        ensures
            match format_named(s@) {
                Some(f) => r == Ok::<Format, String>(f),
                None => r matches Err(e) && e@ == "unknown format: "@ + s@,
            },
    {
        Format::parse(s)
    }
}

} // verus!
