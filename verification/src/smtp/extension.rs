//! What a server says of itself: its name in the greeting, and the
//! extensions it lists in answer to EHLO.
use vstd::prelude::*;
use vstd::string::StringExecFns;
use vstd::string::StringSliceAdditionalSpecFns;
use crate::smtp::reply::Reply;

verus! {

/// An extension as a server lists it, or as a caller asks for it.
#[derive(Debug, Clone, Copy, PartialEq, Eq)]
pub enum Extensions<'a> {
    StartTls,
    /// AUTH, with the mechanisms the server takes, such as `PLAIN LOGIN`.
    Auth(&'a str),
    /// Any other keyword, with what follows it on its line.
    Other(&'a str, &'a str),
}

/// An extension, as the bytes of its parts.
pub enum Extension {
    StartTls,
    Auth(Seq<u8>),
    Other(Seq<u8>, Seq<u8>),
}

/// What a line of an EHLO reply lists. The keyword is what stands before the
/// first space, in any case of its letters; the rest is kept as it is.
pub open spec fn parse_extension(line: Seq<u8>) -> Extension {
    let keyword = crate::text::before(line, 32);
    let args = crate::text::behind(line, 32);
    if crate::text::same_ignoring_case(keyword, "STARTTLS".spec_bytes()) {
        Extension::StartTls
    } else if crate::text::same_ignoring_case(keyword, "AUTH".spec_bytes()) {
        Extension::Auth(args)
    } else {
        Extension::Other(keyword, args)
    }
}

/// Whether a server that lists `listed` offers what `wanted` asks for.
/// To ask for AUTH with no mechanism is to ask for AUTH at all, and to ask
/// for AUTH with a mechanism is to ask for one of the words the server
/// lists. Anything else has to be listed as it is asked for.
pub open spec fn offers(listed: Extension, wanted: Extension) -> bool {
    match (listed, wanted) {
        (Extension::Auth(mechanisms), Extension::Auth(mechanism)) => mechanism.len() == 0
            || crate::text::has_word(mechanisms, 0, mechanism),
        _ => listed == wanted,
    }
}

/// Two extensions that differ at most in the case of the letters of a
/// keyword that is neither STARTTLS nor AUTH.
pub open spec fn same_extension(a: Extension, b: Extension) -> bool {
    match (a, b) {
        (Extension::StartTls, Extension::StartTls) => true,
        (Extension::Auth(x), Extension::Auth(y)) => x == y,
        (Extension::Other(k, x), Extension::Other(l, y)) => crate::text::same_ignoring_case(k, l)
            && x == y,
        _ => false,
    }
}

/// The case of the letters of a keyword does not change what a line lists:
/// two lines whose keywords differ at most in the case of their letters,
/// and that are alike behind the keyword, list the same extension with the
/// same arguments. A keyword that is neither STARTTLS nor AUTH is kept as
/// it was written, so there the two may differ in the case of the keyword.
pub proof fn keyword_case_is_ignored(a: Seq<u8>, b: Seq<u8>)
    requires
        crate::text::same_ignoring_case(crate::text::before(a, 32), crate::text::before(b, 32)),
        crate::text::behind(a, 32) == crate::text::behind(b, 32),
    ensures
        same_extension(parse_extension(a), parse_extension(b)),
{
}

impl<'a> Extensions<'a> {
    pub open spec fn view(&self) -> Extension {
        match self {
            Extensions::StartTls => Extension::StartTls,
            Extensions::Auth(mechanisms) => Extension::Auth(mechanisms.spec_bytes()),
            Extensions::Other(keyword, args) => Extension::Other(
                keyword.spec_bytes(),
                args.spec_bytes(),
            ),
        }
    }

    /// Reads what a line of an EHLO reply lists.
    pub fn from_str(s: &'a str) -> (ext: Extensions<'a>)
        ensures
            ext@ == parse_extension(s.spec_bytes()),
    {
        let (keyword, args) = match crate::text::split_once(s, 32) {
            Some((keyword, args)) => (keyword, args),
            None => {
                proof {
                    assert(s.spec_bytes().subrange(0, s.spec_bytes().len() as int)
                        =~= s.spec_bytes());
                    reveal_strlit("");
                    assert("".spec_bytes() =~= Seq::<u8>::empty());
                }
                (s, "")
            },
        };
        if crate::text::eq_ignore_ascii_case(keyword.as_bytes(), "STARTTLS".as_bytes()) {
            Extensions::StartTls
        } else if crate::text::eq_ignore_ascii_case(keyword.as_bytes(), "AUTH".as_bytes()) {
            Extensions::Auth(args)
        } else {
            Extensions::Other(keyword, args)
        }
    }

    /// The extension as a server lists it: the keyword, and behind a space
    /// what goes with it, if anything does.
    pub open spec fn text(&self) -> Seq<char> {
        match self {
            Extensions::StartTls => "STARTTLS"@,
            Extensions::Auth(mechanisms) => if mechanisms@.len() == 0 {
                "AUTH"@
            } else {
                "AUTH "@ + mechanisms@
            },
            Extensions::Other(keyword, args) => if args@.len() == 0 {
                keyword@
            } else {
                keyword@ + " "@ + args@
            },
        }
    }

    /// The extension as a server lists it, as a string.
    pub fn to_string(&self) -> (text: String)
        ensures
            text@ == self.text(),
    {
        match self {
            Extensions::StartTls => String::from_str("STARTTLS"),
            Extensions::Auth(mechanisms) => {
                let mut out = String::from_str("AUTH");
                if !mechanisms.is_empty() {
                    out.append(" ");
                    out.append(mechanisms);
                    proof {
                        reveal_strlit("AUTH");
                        reveal_strlit("AUTH ");
                        reveal_strlit(" ");
                        assert("AUTH"@ + " "@ =~= "AUTH "@);
                    }
                }
                out
            },
            Extensions::Other(keyword, args) => {
                let mut out = String::from_str(keyword);
                if !args.is_empty() {
                    out.append(" ");
                    out.append(args);
                }
                out
            },
        }
    }

    /// Whether a server that lists `self` offers what `wanted` asks for.
    fn offers(&self, wanted: &Extensions<'_>) -> (yes: bool)
        ensures
            yes == offers(self@, wanted@),
    {
        match (self, wanted) {
            (Extensions::Auth(mechanisms), Extensions::Auth(mechanism)) => {
                mechanism.as_bytes().len() == 0 || crate::text::contains_word(
                    mechanisms.as_bytes(),
                    mechanism.as_bytes(),
                )
            },
            (Extensions::StartTls, Extensions::StartTls) => true,
            (Extensions::Other(k, x), Extensions::Other(l, y)) => crate::text::bytes_eq(
                k.as_bytes(),
                l.as_bytes(),
            ) && crate::text::bytes_eq(x.as_bytes(), y.as_bytes()),
            _ => false,
        }
    }
}

/// The greeting of a server, and the name it gives itself there.
pub struct Ready<'a> {
    hostname: &'a str,
    reply: Reply<'a>,
}

impl<'a> Ready<'a> {
    pub closed spec fn spec_hostname(&self) -> &'a str {
        self.hostname
    }

    /// The reply that the greeting was.
    pub closed spec fn reply(&self) -> Reply<'a> {
        self.reply
    }

    /// Reads the greeting: the server's name is what stands before the first
    /// space of its first line.
    pub fn new(reply: Reply<'a>) -> (ready: Self)
        ensures
            ready.reply() == reply,
            ready.hostname().spec_bytes() == crate::text::before(reply.current(), 32),
    {
        let first_line = reply.current_line();
        let hostname = match crate::text::split_once(first_line, 32) {
            Some((hostname, _)) => hostname,
            None => {
                proof {
                    assert(first_line.spec_bytes().subrange(
                        0,
                        first_line.spec_bytes().len() as int,
                    ) =~= first_line.spec_bytes());
                }
                first_line
            },
        };
        Ready { hostname, reply }
    }

    #[verifier::when_used_as_spec(spec_hostname)]
    pub fn hostname(&self) -> (hostname: &'a str)
        ensures
            hostname == self.hostname(),
    {
        self.hostname
    }
}

impl<'a> core::ops::Deref for Ready<'a> {
    type Target = Reply<'a>;

    fn deref(&self) -> (reply: &Reply<'a>)
        ensures
            *reply == self.reply(),
    {
        &self.reply
    }
}

/// The answer of a server to EHLO: its first line greets, and each line
/// after it lists an extension.
pub struct EhloResponse<'a> {
    reply: Reply<'a>,
}

impl<'a> EhloResponse<'a> {
    /// The reply that the answer was.
    pub closed spec fn reply(&self) -> Reply<'a> {
        self.reply
    }

    /// The extensions that the answer lists, in order.
    pub open spec fn listed(&self) -> Seq<Extension> {
        Seq::new(
            if self.reply()@.len() > 0 {
                (self.reply()@.len() - 1) as nat
            } else {
                0
            },
            |i: int| parse_extension(self.reply()@[i + 1]),
        )
    }

    pub fn new(reply: Reply<'a>) -> (ehlo: Self)
        ensures
            ehlo.reply() == reply,
    {
        EhloResponse { reply }
    }

    /// The extensions that the server lists, in order.
    pub fn extensions(&self) -> (all: Vec<Extensions<'a>>)
        ensures
            all@.len() == self.listed().len(),
            forall|i: int| 0 <= i < all@.len() ==> (#[trigger] all@[i])@ == self.listed()[i],
    {
        let lines = self.reply.lines();
        let mut all: Vec<Extensions<'a>> = Vec::new();
        let mut i: usize = 1;
        while i < lines.len()
            invariant
                1 <= i,
                i <= lines@.len() || i == 1,
                lines@.len() == self.reply()@.len(),
                forall|j: int|
                    0 <= j < lines@.len() ==> (#[trigger] lines@[j]).spec_bytes()
                        == self.reply()@[j],
                all@.len() == i - 1,
                forall|j: int| 0 <= j < all@.len() ==> (#[trigger] all@[j])@ == self.listed()[j],
            decreases lines@.len() - i,
        {
            let ext = Extensions::from_str(lines[i]);
            all.push(ext);
            i = i + 1;
        }
        all
    }

    /// Whether the server offers what `ext` asks for: whether one of the
    /// extensions it lists does.
    pub fn supports(&self, ext: Extensions<'_>) -> (yes: bool)
        ensures
            yes == exists|i: int|
                0 <= i < self.listed().len() && offers(#[trigger] self.listed()[i], ext@),
    {
        let all = self.extensions();
        let mut i: usize = 0;
        while i < all.len()
            invariant
                i <= all@.len(),
                all@.len() == self.listed().len(),
                forall|j: int| 0 <= j < all@.len() ==> (#[trigger] all@[j])@ == self.listed()[j],
                forall|j: int| 0 <= j < i ==> !offers(#[trigger] self.listed()[j], ext@),
            decreases all@.len() - i,
        {
            if all[i].offers(&ext) {
                return true;
            }
            i = i + 1;
        }
        false
    }
}

impl<'a> core::ops::Deref for EhloResponse<'a> {
    type Target = Reply<'a>;

    fn deref(&self) -> (reply: &Reply<'a>)
        ensures
            *reply == self.reply(),
    {
        &self.reply
    }
}


} // verus!
