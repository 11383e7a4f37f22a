//! Command payloads of the transport layer that carry storage-facing
//! parameters: fetching a stream, and requesting a diagnostic snapshot.
//! Their binary and textual forms are parsed and produced here; the
//! transport only moves the bytes.

use vstd::prelude::*;

use crate::error::Error;
use crate::identifier::{IdKind, Identifier};
use crate::text::{all_digits, digits_val};

verus! {

/// Whether the textual form holds a field separator.
pub open spec fn has_pipe(s: Seq<char>) -> bool {
    exists|i: int| 0 <= i < s.len() && s[i] == '|'
}

/// Find a field separator, if any.
fn find_pipe(s: &str) -> (r: bool)
    ensures
        r == has_pipe(s@),
{
    let n = s.unicode_len();
    let mut i: usize = 0;
    while i < n
        invariant
            i <= n,
            n == s@.len(),
            forall|j: int| 0 <= j < i ==> s@[j] != '|',
        decreases n - i,
    {
        if s.get_char(i) == '|' {
            return true;
        }
        i += 1;
    }
    false
}

/// The command that fetches one stream, addressed by identifier.
#[derive(Debug)]
pub struct GetStream {
    pub stream_id: Identifier,
}

impl GetStream {
    /// Every identifier-addressed fetch is acceptable as such.
    pub fn validate(&self) -> (r: Result<(), Error>)
        ensures
            r == Ok::<(), Error>(()),
    {
        Ok(())
    }

    /// Parse the textual form: a single field holding the identifier, which
    /// is the one the input denotes (numeric text parses as a numeric
    /// identifier, anything else as a name).
    pub fn from_input(input: &str) -> (r: Result<GetStream, Error>)
        ensures
            match r {
                Ok(cmd) => {
                    &&& !has_pipe(input@)
                    &&& cmd.stream_id.wf()
                    &&& (Identifier::is_numeric_text(input@) ==> cmd.stream_id.kind
                        == IdKind::Numeric && cmd.stream_id.numeric_value() == digits_val(input@))
                    &&& (!Identifier::is_numeric_text(input@) ==> cmd.stream_id.kind
                        == IdKind::Named && cmd.stream_id.value@ == Seq::new(
                        input@.len(),
                        |i: int| input@[i] as u8,
                    ))
                },
                Err(e) => {
                    &&& (e == Error::InvalidCommand <==> has_pipe(input@))
                    &&& (e == Error::InvalidIdentifier ==> !has_pipe(input@)
                        && !Identifier::is_numeric_text(input@) && (input@.len() == 0
                        || input@.len() > 255 || !vstd::string::is_ascii(input) || (all_digits(
                        input@,
                    ) && digits_val(input@) == 0)))
                    &&& (e == Error::InvalidCommand || e == Error::InvalidIdentifier)
                },
            },
    {
        if find_pipe(input) {
            return Err(Error::InvalidCommand);
        }
        let stream_id = Identifier::from_str_value(input)?;
        let command = GetStream { stream_id };
        command.validate()?;
        Ok(command)
    }

    /// The wire form: the identifier's own encoding.
    pub fn as_bytes(&self) -> (r: Vec<u8>)
        requires
            self.stream_id.wf(),
        ensures
            r@ == self.stream_id.bytes_spec(),
    {
        self.stream_id.as_bytes()
    }

    /// Parse the wire form: succeeds exactly on a valid identifier
    /// encoding of at least three bytes.
    pub fn from_bytes(bytes: &[u8]) -> (r: Result<GetStream, Error>)
        ensures
            match r {
                Ok(cmd) => cmd.stream_id.wf() && cmd.stream_id.bytes_spec() == bytes@,
                Err(e) => {
                    &&& (e == Error::InvalidCommand <==> bytes@.len() < 3)
                    &&& (e == Error::InvalidIdentifier ==> forall|id: Identifier|
                        (#[trigger] id.wf()) ==> id.bytes_spec() != bytes@)
                    &&& (e == Error::InvalidCommand || e == Error::InvalidIdentifier)
                },
            },
    {
        if bytes.len() < 3 {
            return Err(Error::InvalidCommand);
        }
        let stream_id = Identifier::from_bytes(bytes)?;
        let command = GetStream { stream_id };
        command.validate()?;
        Ok(command)
    }

    /// The textual form: the identifier's own text.
    pub fn as_string(&self) -> (r: String)
        requires
            self.stream_id.wf(),
    {
        self.stream_id.as_string()
    }
}

impl core::str::FromStr for GetStream {
    type Err = Error;

    fn from_str(input: &str) -> Result<GetStream, Error> {
        GetStream::from_input(input)
    }
}

impl PartialEq for GetStream {
    /// Two fetches are equal when they address the same identifier.
    fn eq(&self, other: &Self) -> (r: bool) {
        self.stream_id == other.stream_id
    }
}

impl vstd::std_specs::cmp::PartialEqSpecImpl for GetStream {
    open spec fn obeys_eq_spec() -> bool {
        true
    }

    open spec fn eq_spec(&self, other: &GetStream) -> bool {
        self.stream_id.kind == other.stream_id.kind && self.stream_id.length
            == other.stream_id.length && self.stream_id.value@ == other.stream_id.value@
    }
}

impl Default for GetStream {
    /// The default fetch addresses the first numeric identifier.
    fn default() -> (r: Self)
        ensures
            r.stream_id.wf(),
            r.stream_id.numeric_value() == 1,
    {
        GetStream { stream_id: crate::identifier::first_numeric() }
    }
}

/// The command that asks the server to package a diagnostic snapshot and
/// says where the client saves it. The location travels as UTF-8 bytes.
#[derive(Debug)]
pub struct GetSnapshot {
    pub file_save_location: String,
}

impl GetSnapshot {
    /// Any save location is accepted here; whether the path is writable is
    /// the client's concern at save time.
    pub fn validate(&self) -> (r: Result<(), Error>)
        ensures
            r == Ok::<(), Error>(()),
    {
        Ok(())
    }

    /// Parse the textual form: a single field holding the location.
    pub fn from_input(input: &str) -> (r: Result<GetSnapshot, Error>)
        ensures
            match r {
                Ok(cmd) => !has_pipe(input@) && cmd.file_save_location@ == input@,
                Err(e) => e == Error::InvalidCommand && has_pipe(input@),
            },
    {
        if find_pipe(input) {
            return Err(Error::InvalidCommand);
        }
        let file_save_location = str_to_owned(input);
        let command = GetSnapshot { file_save_location };
        command.validate()?;
        Ok(command)
    }

    /// The wire form: the location's bytes.
    pub fn as_bytes(&self) -> (r: Vec<u8>)
        ensures
            r@ == vstd::utf8::encode_utf8(self.file_save_location@),
    {
        self.file_save_location.as_str().as_bytes_vec()
    }

    /// Parse the wire form: the location, decoded from UTF-8. Succeeds
    /// exactly on valid UTF-8, and the returned location re-encodes to the
    /// given bytes; undecodable bytes are classified `InvalidCommand`.
    pub fn from_bytes(bytes: &[u8]) -> (r: Result<GetSnapshot, Error>)
        ensures
            match r {
                Ok(cmd) => vstd::utf8::encode_utf8(cmd.file_save_location@) == bytes@,
                Err(e) => e == Error::InvalidCommand && !vstd::utf8::valid_utf8(bytes@),
            },
    {
        let decoded = match core::str::from_utf8(bytes) {
            Ok(s) => s,
            Err(_) => {
                return Err(Error::InvalidCommand);
            },
        };
        let file_save_location = str_to_owned(decoded);
        let command = GetSnapshot { file_save_location };
        command.validate()?;
        Ok(command)
    }

    /// The textual form: the location itself.
    pub fn as_string(&self) -> (r: String)
        ensures
            r@ == self.file_save_location@,
    {
        let r = self.file_save_location.clone();
        r
    }
}

impl core::str::FromStr for GetSnapshot {
    type Err = Error;

    fn from_str(input: &str) -> Result<GetSnapshot, Error> {
        GetSnapshot::from_input(input)
    }
}

impl PartialEq for GetSnapshot {
    /// Two snapshot requests are equal when their locations are.
    fn eq(&self, other: &Self) -> (r: bool) {
        self.file_save_location == other.file_save_location
    }
}

impl vstd::std_specs::cmp::PartialEqSpecImpl for GetSnapshot {
    open spec fn obeys_eq_spec() -> bool {
        true
    }

    open spec fn eq_spec(&self, other: &GetSnapshot) -> bool {
        self.file_save_location@ == other.file_save_location@
    }
}

impl Default for GetSnapshot {
    /// The default request carries an empty location.
    fn default() -> (r: Self)
        ensures
            r.file_save_location@ == Seq::<char>::empty(),
    {
        GetSnapshot { file_save_location: String::new() }
    }
}

/// An owned copy of a borrowed string.
fn str_to_owned(s: &str) -> (r: String)
    ensures
        r@ == s@,
{
    s.to_owned()
}


} // verus!
