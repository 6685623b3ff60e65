use vstd::prelude::*;

verus! {

/// Why a connection is answered with an error message instead of a file.
#[derive(Clone, Debug, PartialEq, Eq)]
pub enum ServeError {
    /// Reading the request from the connection failed; holds the reason.
    RequestRead(String),
    /// The request held this many bytes, more than a file name may take.
    TooLarge(usize),
    /// The requested name could leave the served root.
    InvalidFile(String),
    /// The requested file could not be opened; holds the reason.
    Open(String),
    /// The size of the opened file could not be learned.
    Metadata,
    /// Reading the file failed part way; holds the reason.
    FileRead(String),
}

} // verus!

verus! {

/// The decimal digits, by value.
pub open spec fn digit(d: nat) -> char {
    seq!['0', '1', '2', '3', '4', '5', '6', '7', '8', '9'][d as int]
}

/// `n` written in decimal, without leading zeros.
pub open spec fn decimal(n: nat) -> Seq<char>
    decreases n,
{
    if n < 10 {
        seq![digit(n)]
    } else {
        decimal(n / 10).push(digit(n % 10))
    }
}

/// Relies on `usize`'s `Display`: an unsigned integer is written in decimal.
#[verifier::external_body]
fn decimal_text(n: usize) -> (r: String)
    ensures
        r@ == decimal(n as nat),
{
    n.to_string()
}

/// The text written to a connection for `e`, before the end marker.
pub open spec fn message_of(e: ServeError) -> Seq<char> {
    match e {
        ServeError::RequestRead(why) => "Err: Failed to read from tcp stream: "@ + why@,
        ServeError::TooLarge(n) => "Err: Request size is too large: "@ + decimal(n as nat),
        ServeError::InvalidFile(name) => "Invalid file "@ + name@,
        ServeError::Open(why) => "Err: Failed to open file: "@ + why@,
        ServeError::Metadata => "Err: Failed to get file metadata"@,
        ServeError::FileRead(why) => "Err: Failed to read from file: "@ + why@,
    }
}

impl ServeError {
    /// The message that tells the client what went wrong.
    pub fn message(&self) -> (r: String)
        ensures
            r@ == message_of(*self),
    {
        match self {
            ServeError::RequestRead(why) => String::from_str(
                "Err: Failed to read from tcp stream: ",
            ).concat(why.as_str()),
            ServeError::TooLarge(n) => {
                let digits = decimal_text(*n);
                String::from_str("Err: Request size is too large: ").concat(digits.as_str())
            },
            ServeError::InvalidFile(name) => String::from_str("Invalid file ").concat(
                name.as_str(),
            ),
            ServeError::Open(why) => String::from_str("Err: Failed to open file: ").concat(
                why.as_str(),
            ),
            ServeError::Metadata => String::from_str("Err: Failed to get file metadata"),
            ServeError::FileRead(why) => String::from_str(
                "Err: Failed to read from file: ",
            ).concat(why.as_str()),
        }
    }
}

} // verus!
