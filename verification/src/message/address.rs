//! Mail addresses.
use vstd::prelude::*;
use vstd::string::StringExecFns;

verus! {

/// A mail address: a local part and a domain.
#[derive(Debug, Clone, PartialEq, Eq)]
pub struct EmailAddress {
    local_part: String,
    domain: String,
}

/// Why a text was not read as an address.
#[derive(Debug, Clone, PartialEq, Eq)]
pub enum ParseError {
    /// Addresses are not read from text yet.
    NotImplemented,
}

impl ParseError {
    pub fn to_string(&self) -> (text: String)
        ensures
            text@ == "Email address parsing not yet implemented"@,
    {
        String::from_str("Email address parsing not yet implemented")
    }
}

impl EmailAddress {
    pub closed spec fn spec_local_part(&self) -> Seq<char> {
        self.local_part@
    }

    pub closed spec fn spec_domain(&self) -> Seq<char> {
        self.domain@
    }

    /// The address `local_part@domain`.
    pub fn from_parts(local_part: String, domain: String) -> (address: Self)
        ensures
            address.spec_local_part() == local_part@,
            address.spec_domain() == domain@,
    {
        EmailAddress { local_part, domain }
    }

    pub fn local_part(&self) -> (part: &str)
        ensures
            part@ == self.spec_local_part(),
    {
        self.local_part.as_str()
    }

    pub fn domain(&self) -> (domain: &str)
        ensures
            domain@ == self.spec_domain(),
    {
        self.domain.as_str()
    }

    /// The address as it is written: the local part, `@`, the domain.
    pub fn to_string(&self) -> (text: String)
        ensures
            text@ == self.spec_local_part() + "@"@ + self.spec_domain(),
    {
        let mut out = String::from_str(self.local_part.as_str());
        out.append("@");
        out.append(self.domain.as_str());
        out
    }
}

impl core::str::FromStr for EmailAddress {
    type Err = ParseError;

    /// Addresses are not read from text yet: every text is refused.
    fn from_str(_s: &str) -> (r: Result<Self, Self::Err>)
        ensures
            r matches Err(ParseError::NotImplemented),
    {
        Err(ParseError::NotImplemented)
    }
}

} // verus!
