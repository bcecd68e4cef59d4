//! The secret a spawned plugin proves itself with.
use vstd::prelude::*;

verus! {

/// OS randomness, as the getrandom crate reports its failure.
#[verifier::external_type_specification]
#[verifier::external_body]
pub struct ExRandomnessError(getrandom::Error);

/// OS randomness was unavailable; no token was issued.
#[derive(Debug)]
pub struct TokenError(pub getrandom::Error);

/// Calls `Display` of `getrandom::Error` (`format!("{}", ..)`). Nothing is
/// stated of the text: for an error of the operating system it is the
/// system's own description.
#[verifier::external_body]
fn randomness_text(error: &getrandom::Error) -> String {
    format!("{}", error)
}

impl TokenError {
    /// The failure in words: no secure identity could be made, and the
    /// reason the randomness source gave.
    pub fn message(&self) -> (r: String)
        ensures
            exists|reason: Seq<char>| r@ == "cannot generate a secure plugin identity: "@ + reason,
    {
        let reason = randomness_text(&self.0);
        let r = crate::refusal::compose("cannot generate a secure plugin identity: ", reason.as_str(), "");
        proof {
            reveal_strlit("");
            assert(r@ =~= "cannot generate a secure plugin identity: "@ + reason@);
        }
        r
    }
}

impl From<getrandom::Error> for TokenError {
    fn from(error: getrandom::Error) -> (r: Self) {
        TokenError(error)
    }
}

impl vstd::std_specs::convert::FromSpecImpl<getrandom::Error> for TokenError {
    open spec fn obeys_from_spec() -> bool {
        true
    }

    open spec fn from_spec(v: getrandom::Error) -> TokenError {
        TokenError(v)
    }
}

/// The lowercase hexadecimal digit of a nibble.
pub open spec fn hex_char(n: int) -> char {
    if n == 0 { '0' }
    else if n == 1 { '1' }
    else if n == 2 { '2' }
    else if n == 3 { '3' }
    else if n == 4 { '4' }
    else if n == 5 { '5' }
    else if n == 6 { '6' }
    else if n == 7 { '7' }
    else if n == 8 { '8' }
    else if n == 9 { '9' }
    else if n == 10 { 'a' }
    else if n == 11 { 'b' }
    else if n == 12 { 'c' }
    else if n == 13 { 'd' }
    else if n == 14 { 'e' }
    else { 'f' }
}

/// Bytes written as two lowercase hex digits each, most significant first.
pub open spec fn hex_text(bytes: Seq<u8>) -> Seq<char> {
    Seq::new(
        (2 * bytes.len()) as nat,
        |i: int|
            if i % 2 == 0 {
                hex_char((bytes[i / 2] / 16) as int)
            } else {
                hex_char((bytes[i / 2] % 16) as int)
            },
    )
}

fn hex_digit(n: u8) -> (r: &'static str)
    requires
        n < 16,
    ensures
        r@ == seq![hex_char(n as int)],
{
    match n {
        0 => { proof { reveal_strlit("0"); } "0" },
        1 => { proof { reveal_strlit("1"); } "1" },
        2 => { proof { reveal_strlit("2"); } "2" },
        3 => { proof { reveal_strlit("3"); } "3" },
        4 => { proof { reveal_strlit("4"); } "4" },
        5 => { proof { reveal_strlit("5"); } "5" },
        6 => { proof { reveal_strlit("6"); } "6" },
        7 => { proof { reveal_strlit("7"); } "7" },
        8 => { proof { reveal_strlit("8"); } "8" },
        9 => { proof { reveal_strlit("9"); } "9" },
        10 => { proof { reveal_strlit("a"); } "a" },
        11 => { proof { reveal_strlit("b"); } "b" },
        12 => { proof { reveal_strlit("c"); } "c" },
        13 => { proof { reveal_strlit("d"); } "d" },
        14 => { proof { reveal_strlit("e"); } "e" },
        _ => { proof { reveal_strlit("f"); } "f" },
    }
}

/// Sixteen bytes of OS randomness, or the reason there are none.
///
/// Calls `getrandom::fill` on a sixteen-byte buffer. Nothing is stated of the
/// bytes: they are whatever the operating system supplied.
#[verifier::external_body]
fn random_bytes() -> (r: Result<[u8; 16], TokenError>) {
    let mut bytes = [0u8; 16];
    match getrandom::fill(&mut bytes) {
        Ok(()) => Ok(bytes),
        Err(error) => Err(TokenError(error)),
    }
}

/// A one-time secret handed to exactly one spawned process.
#[derive(Debug, Clone, PartialEq, Eq, Hash)]
pub struct PluginToken(String);

impl View for PluginToken {
    type V = Seq<char>;

    closed spec fn view(&self) -> Seq<char> {
        self.0@
    }
}

impl PluginToken {
    /// Generate a 128-bit token from OS randomness.
    /// Returns an error when the OS cannot supply randomness; no fallback is used.
    pub fn mint() -> (r: Result<Self, TokenError>)
        ensures
            r matches Ok(t) ==> t@.len() == 32 && exists|bytes: Seq<u8>| bytes.len() == 16 && t@ == hex_text(bytes),
    {
        let filled = random_bytes();
        let ghost given = filled;
        let r = Self::generate(filled);
        proof {
            if let Ok(bytes) = given {
                assert(bytes@.len() == 16);
            }
        }
        r
    }

    /// The token that sixteen filled bytes spell, in lowercase hex; a failure
    /// to fill them is passed on and yields no token.
    pub fn generate(filled: Result<[u8; 16], TokenError>) -> (r: Result<Self, TokenError>)
        ensures
            filled is Err <==> r is Err,
            filled is Ok ==> r is Ok && r->Ok_0@ == hex_text(filled->Ok_0@),
    {
        let bytes = match filled {
            Ok(bytes) => bytes,
            Err(error) => {
                return Err(error);
            },
        };
        let mut text = String::new();
        let mut i: usize = 0;
        while i < 16
            invariant
                i <= 16,
                bytes@.len() == 16,
                text@ == hex_text(bytes@.subrange(0, i as int)),
            decreases 16 - i,
        {
            let byte = bytes[i];
            let ghost before = text@;
            text.append(hex_digit(byte / 16));
            text.append(hex_digit(byte % 16));
            proof {
                let prefix = bytes@.subrange(0, i + 1);
                assert(prefix.subrange(0, i as int) =~= bytes@.subrange(0, i as int));
                assert(text@ =~= hex_text(prefix));
            }
            i = i + 1;
        }
        proof {
            assert(bytes@.subrange(0, 16) =~= bytes@);
        }
        Ok(PluginToken(text))
    }

    /// A copy of this token.
    pub fn duplicate(&self) -> (r: Self)
        ensures
            r@ == self@,
    {
        PluginToken(self.0.clone())
    }

    pub fn as_str(&self) -> (r: &str)
        ensures
            r@ == self@,
    {
        self.0.as_str()
    }
}

} // verus!
