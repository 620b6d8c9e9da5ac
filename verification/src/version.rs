//! The argument of `#[version(..)]`.
//!
//! Two forms are accepted:
//! - `#[version("0.1")]` names the version explicitly;
//! - `#[version]` uses the version of the package being built
//!   (`CARGO_PKG_VERSION`), or `0.0.0` where there is none.

use vstd::prelude::*;
use crate::tokens::{stream_is_empty, stream_trees_of, TreeView};
use crate::syntax::{leading_expression, split_expression, ParseError};

verus! {

/// The version a `#[version(..)]` attribute asks for; `None` when it asks
/// for the package's own version.
pub struct DeriveVersion {
    pub version: Option<String>,
}

impl Clone for DeriveVersion {
    fn clone(&self) -> (r: Self)
        ensures
            option_view(r.version) == option_view(self.version),
    {
        match &self.version {
            Some(v) => DeriveVersion { version: Some(v.clone()) },
            None => DeriveVersion { version: None },
        }
    }
}

/// The version that an argument whose trees are `s` asks for. Invisible
/// groups are kept: an expression in one is a grouped expression, not a
/// literal.
pub open spec fn derive_version_of(s: Seq<TreeView>) -> Result<Option<Seq<char>>, ParseError> {
    if s.len() == 0 {
        Ok(None)
    } else {
        match leading_expression(s) {
            None => Err(ParseError::ExpectedExpression),
            Some((_, None)) => Err(ParseError::ExpectedStringLiteral),
            Some((rest, Some(v))) => if rest == 0 {
                Ok(Some(v))
            } else {
                Err(ParseError::UnexpectedToken)
            },
        }
    }
}

/// The version that is used: the one named, else the package's, else `0.0.0`.
pub open spec fn effective_version(version: Option<Seq<char>>, package_version: Option<Seq<char>>) -> Seq<char> {
    match version {
        Some(v) => v,
        None => match package_version {
            Some(p) => p,
            None => "0.0.0"@,
        },
    }
}

pub open spec fn option_view(o: Option<String>) -> Option<Seq<char>> {
    match o {
        Some(s) => Some(s@),
        None => None,
    }
}

/// `#[version]` without argument uses the package's version, or `0.0.0`
/// where the package has none; `#[version("v")]` uses `v` whatever the
/// package's version.
pub proof fn lemma_version_choice(s: Seq<TreeView>, package_version: Option<Seq<char>>)
    ensures
        s.len() == 0 ==> derive_version_of(s) == Ok::<Option<Seq<char>>, ParseError>(None)
            && effective_version(None, package_version) == (match package_version {
                Some(p) => p,
                None => "0.0.0"@,
            }),
        derive_version_of(s) matches Ok(Some(v)) ==> s.len() > 0 && leading_expression(s) == Some((0nat, Some(v)))
            && effective_version(Some(v), package_version) == v,
{
}

impl DeriveVersion {
    /// Parses the whole argument of `#[version(..)]`, as the stream holds
    /// it: nothing, or an expression that is a string literal, with nothing
    /// after it.
    pub fn parse(input: &proc_macro2::TokenStream) -> (r: Result<DeriveVersion, ParseError>)
        ensures
            match r {
                Ok(d) => derive_version_of(stream_trees_of(*input)) == Ok::<Option<Seq<char>>, ParseError>(option_view(d.version)),
                Err(e) => derive_version_of(stream_trees_of(*input)) == Err::<Option<Seq<char>>, ParseError>(e),
            },
    {
        if stream_is_empty(input) {
            return Ok(DeriveVersion { version: None });
        }
        match split_expression(input) {
            None => Err(ParseError::ExpectedExpression),
            Some((_, None)) => Err(ParseError::ExpectedStringLiteral),
            Some((rest, Some(v))) => if rest == 0 {
                Ok(DeriveVersion { version: Some(v) })
            } else {
                Err(ParseError::UnexpectedToken)
            },
        }
    }

    /// The version to use, given the package's version as the build
    /// environment gives it (`CARGO_PKG_VERSION`, if set).
    pub fn get_version(&self, package_version: Option<String>) -> (r: String)
        ensures
            r@ == effective_version(option_view(self.version), option_view(package_version)),
    {
        match &self.version {
            Some(v) => v.clone(),
            None => match package_version {
                Some(p) => p,
                None => String::from_str("0.0.0"),
            },
        }
    }
}

} // verus!
