//! Identifiers: the numeric-or-named handles that commands address
//! streams and topics by. The wire form is one kind byte, one length byte,
//! then the value bytes. Named identifiers are ASCII in this engine.

use vstd::prelude::*;

use vstd::bytes::{
    lemma_auto_spec_u32_to_from_le_bytes, spec_u32_from_le_bytes, spec_u32_to_le_bytes,
    u32_from_le_bytes, u32_to_le_bytes,
};

use crate::error::Error;
use crate::text::{all_digits, dec_chars, digits_val, parse_u32_decimal, push_char};

verus! {

/// How an identifier addresses its target.
#[derive(Clone, Copy, Debug, PartialEq, Eq, Structural)]
pub enum IdKind {
    /// By numeric identifier.
    Numeric,
    /// By name.
    Named,
}

/// The kind's wire byte.
pub open spec fn kind_code(k: IdKind) -> u8 {
    match k {
        IdKind::Numeric => 1,
        IdKind::Named => 2,
    }
}

/// A numeric or named handle for a stream or topic.
#[derive(Debug)]
pub struct Identifier {
    pub kind: IdKind,
    pub length: u8,
    pub value: Vec<u8>,
}

impl Identifier {
    /// A valid identifier: a numeric one is a non-zero 32-bit word; a
    /// named one is 1 to 255 ASCII bytes.
    pub open spec fn wf(&self) -> bool {
        &&& self.value@.len() == self.length
        &&& match self.kind {
            IdKind::Numeric => self.length == 4 && spec_u32_from_le_bytes(self.value@) != 0,
            IdKind::Named => 1 <= self.length && (forall|i: int|
                0 <= i < self.value@.len() ==> (#[trigger] self.value@[i]) < 128),
        }
    }

    /// The wire form: kind byte, length byte, value bytes.
    pub open spec fn bytes_spec(&self) -> Seq<u8> {
        seq![kind_code(self.kind), self.length] + self.value@
    }

    /// The numeric value, for a numeric identifier.
    pub open spec fn numeric_value(&self) -> u32 {
        spec_u32_from_le_bytes(self.value@)
    }

    /// An identifier addressing by number. Zero is not a valid identifier.
    pub fn numeric(value: u32) -> (r: Result<Identifier, Error>)
        ensures
            match r {
                Ok(id) => {
                    &&& value != 0
                    &&& id.wf()
                    &&& id.kind == IdKind::Numeric
                    &&& id.numeric_value() == value
                    &&& id.value@ == spec_u32_to_le_bytes(value)
                },
                Err(e) => value == 0 && e == Error::InvalidIdentifier,
            },
    {
        if value == 0 {
            return Err(Error::InvalidIdentifier);
        }
        proof {
            lemma_auto_spec_u32_to_from_le_bytes();
        }
        let bytes = u32_to_le_bytes(value);
        Ok(Identifier { kind: IdKind::Numeric, length: 4, value: bytes })
    }

    /// An identifier addressing by name: 1 to 255 ASCII characters.
    pub fn named(name: &str) -> (r: Result<Identifier, Error>)
        ensures
            match r {
                Ok(id) => {
                    &&& 1 <= name@.len() <= 255
                    &&& vstd::string::is_ascii(name)
                    &&& id.wf()
                    &&& id.kind == IdKind::Named
                    &&& id.value@ == Seq::new(name@.len(), |i: int| name@[i] as u8)
                },
                Err(e) => e == Error::InvalidIdentifier && (name@.len() == 0 || name@.len() > 255
                    || !vstd::string::is_ascii(name)),
            },
    {
        let n = s_len_chars(name);
        if n == 0 || n > 255 {
            return Err(Error::InvalidIdentifier);
        }
        if !name.is_ascii() {
            return Err(Error::InvalidIdentifier);
        }
        proof {
            vstd::string::is_ascii_spec_bytes(name);
        }
        let value = name.as_bytes_vec();
        proof {
            assert(value@ =~= Seq::new(name@.len(), |i: int| name@[i] as u8));
        }
        Ok(Identifier { kind: IdKind::Named, length: n as u8, value })
    }

    /// The wire form of this identifier.
    pub fn as_bytes(&self) -> (r: Vec<u8>)
        requires
            self.wf(),
        ensures
            r@ == self.bytes_spec(),
    {
        let mut out: Vec<u8> = Vec::new();
        out.push(
            match self.kind {
                IdKind::Numeric => 1,
                IdKind::Named => 2,
            },
        );
        out.push(self.length);
        let mut i: usize = 0;
        let n = self.value.len();
        while i < n
            invariant
                i <= n,
                n == self.value@.len(),
                out@ == seq![kind_code(self.kind), self.length] + self.value@.take(i as int),
            decreases n - i,
        {
            out.push(self.value[i]);
            proof {
                assert(out@ =~= seq![kind_code(self.kind), self.length] + self.value@.take(
                    i + 1,
                ));
            }
            i += 1;
        }
        proof {
            assert(self.value@.take(n as int) =~= self.value@);
        }
        out
    }

    /// Parse the wire form. Succeeds exactly on the encoding of a valid
    /// identifier, and returns that identifier.
    pub fn from_bytes(bytes: &[u8]) -> (r: Result<Identifier, Error>)
        ensures
            match r {
                Ok(id) => id.wf() && id.bytes_spec() == bytes@,
                Err(e) => {
                    &&& e == Error::InvalidIdentifier
                    &&& forall|id: Identifier|
                        (#[trigger] id.wf()) ==> id.bytes_spec() != bytes@
                },
            },
    {
        if bytes.len() < 3 {
            proof {
                lemma_no_wf_short(bytes@);
            }
            return Err(Error::InvalidIdentifier);
        }
        let kind_byte = *slice_get(bytes, 0);
        let length = *slice_get(bytes, 1);
        if kind_byte != 1 && kind_byte != 2 {
            proof {
                lemma_no_wf_bad_head(bytes@);
            }
            return Err(Error::InvalidIdentifier);
        }
        if bytes.len() != 2 + length as usize {
            proof {
                lemma_no_wf_bad_head(bytes@);
            }
            return Err(Error::InvalidIdentifier);
        }
        let mut value: Vec<u8> = Vec::new();
        let mut i: usize = 2;
        let n = bytes.len();
        while i < n
            invariant
                2 <= i <= n,
                n == bytes@.len(),
                value@ == bytes@.subrange(2, i as int),
            decreases n - i,
        {
            value.push(*slice_get(bytes, i));
            proof {
                assert(value@ =~= bytes@.subrange(2, i + 1));
            }
            i += 1;
        }
        proof {
            assert(value@ =~= bytes@.skip(2));
        }
        if kind_byte == 1 {
            if length != 4 {
                proof {
                    lemma_no_wf_bad_head(bytes@);
                }
                return Err(Error::InvalidIdentifier);
            }
            let word = u32_from_le_bytes(value.as_slice());
            if word == 0 {
                proof {
                    lemma_no_wf_zero_numeric(bytes@);
                }
                return Err(Error::InvalidIdentifier);
            }
            let id = Identifier { kind: IdKind::Numeric, length, value };
            proof {
                assert(id.bytes_spec() =~= bytes@);
            }
            Ok(id)
        } else {
            let mut j: usize = 0;
            let m = value.len();
            while j < m
                invariant
                    j <= m,
                    m == value@.len(),
                    value@ == bytes@.skip(2),
                    n == bytes@.len(),
                    n == 2 + value@.len(),
                    n >= 3,
                    bytes@[0] == 2,
                    forall|k: int| 0 <= k < j ==> (#[trigger] value@[k]) < 128,
                decreases m - j,
            {
                if value[j] >= 128 {
                    proof {
                        lemma_no_wf_non_ascii(bytes@, 2 + j as int);
                    }
                    return Err(Error::InvalidIdentifier);
                }
                j += 1;
            }
            let id = Identifier { kind: IdKind::Named, length, value };
            proof {
                assert(id.bytes_spec() =~= bytes@);
            }
            Ok(id)
        }
    }

    /// Whether a textual form denotes a numeric identifier: a non-empty
    /// all-digit string whose non-zero value fits a 32-bit word.
    pub open spec fn is_numeric_text(s: Seq<char>) -> bool {
        s.len() > 0 && all_digits(s) && 1 <= digits_val(s) <= u32::MAX
    }

    /// Parse an identifier from its textual form: a numeric text is a
    /// numeric identifier; anything else is taken as a name (1 to 255 ASCII
    /// characters).
    pub fn from_str_value(input: &str) -> (r: Result<Identifier, Error>)
        ensures
            match r {
                Ok(id) => {
                    &&& id.wf()
                    &&& (Identifier::is_numeric_text(input@) ==> id.kind == IdKind::Numeric
                        && id.numeric_value() == digits_val(input@))
                    &&& (!Identifier::is_numeric_text(input@) ==> id.kind == IdKind::Named
                        && id.value@ == Seq::new(input@.len(), |i: int| input@[i] as u8))
                },
                Err(e) => {
                    &&& e == Error::InvalidIdentifier
                    &&& !Identifier::is_numeric_text(input@)
                    &&& (input@.len() == 0 || input@.len() > 255 || !vstd::string::is_ascii(
                        input,
                    ) || (all_digits(input@) && digits_val(input@) == 0))
                },
            },
    {
        match parse_u32_decimal(input) {
            Some(v) => {
                if v == 0 {
                    return Err(Error::InvalidIdentifier);
                }
                Identifier::numeric(v)
            },
            None => {
                proof {
                    if Identifier::is_numeric_text(input@) {
                        assert(false);
                    }
                }
                let id = Identifier::named(input)?;
                Ok(id)
            },
        }
    }

    /// The textual form: the decimal number, or the name itself.
    pub fn as_string(&self) -> (r: String)
        requires
            self.wf(),
        ensures
            self.kind == IdKind::Numeric ==> r@ == dec_chars(self.numeric_value() as nat),
            self.kind == IdKind::Named ==> r@ == Seq::new(
                self.value@.len(),
                |i: int| self.value@[i] as char,
            ),
    {
        match self.kind {
            IdKind::Numeric => {
                proof {
                    lemma_auto_spec_u32_to_from_le_bytes();
                }
                let word = u32_from_le_bytes(self.value.as_slice());
                crate::text::u32_to_decimal(word)
            },
            IdKind::Named => {
                let mut s = String::new();
                let n = self.value.len();
                let mut i: usize = 0;
                while i < n
                    invariant
                        i <= n,
                        n == self.value@.len(),
                        self.wf(),
                        self.kind == IdKind::Named,
                        s@ =~= Seq::new(i as nat, |k: int| self.value@[k] as char),
                    decreases n - i,
                {
                    push_char(&mut s, self.value[i] as char);
                    proof {
                        assert(s@ =~= Seq::new((i + 1) as nat, |k: int| self.value@[k] as char));
                    }
                    i += 1;
                }
                s
            },
        }
    }
}

impl Clone for Identifier {
    /// Cloning keeps the identifier's fields.
    fn clone(&self) -> (r: Self)
        ensures
            r.kind == self.kind,
            r.length == self.length,
            r.value@ == self.value@,
    {
        Identifier {
            kind: self.kind,
            length: self.length,
            value: crate::message::clone_bytes(&self.value),
        }
    }
}

impl PartialEq for Identifier {
    /// Two identifiers are equal when their kinds, lengths and values are.
    fn eq(&self, other: &Self) -> (r: bool) {
        let kinds = match (self.kind, other.kind) {
            (IdKind::Numeric, IdKind::Numeric) => true,
            (IdKind::Named, IdKind::Named) => true,
            _ => false,
        };
        kinds && self.length == other.length && bytes_eq(&self.value, &other.value)
    }
}

impl vstd::std_specs::cmp::PartialEqSpecImpl for Identifier {
    open spec fn obeys_eq_spec() -> bool {
        true
    }

    open spec fn eq_spec(&self, other: &Identifier) -> bool {
        self.kind == other.kind && self.length == other.length && self.value@ == other.value@
    }
}

/// Byte-vector equality, decided element by element.
pub fn bytes_eq(a: &Vec<u8>, b: &Vec<u8>) -> (r: bool)
    ensures
        r == (a@ == b@),
{
    if a.len() != b.len() {
        return false;
    }
    let n = a.len();
    let mut i: usize = 0;
    while i < n
        invariant
            i <= n,
            n == a@.len(),
            n == b@.len(),
            forall|j: int| 0 <= j < i ==> a@[j] == b@[j],
        decreases n - i,
    {
        if a[i] != b[i] {
            return false;
        }
        i += 1;
    }
    proof {
        assert(a@ =~= b@);
    }
    true
}

/// An element of a slice.
fn slice_get(s: &[u8], i: usize) -> (r: &u8)
    requires
        i < s@.len(),
    ensures
        *r == s@[i as int],
{
    &s[i]
}

/// No valid identifier encodes to fewer than three bytes.
proof fn lemma_no_wf_short(bytes: Seq<u8>)
    requires
        bytes.len() < 3,
    ensures
        forall|id: Identifier| (#[trigger] id.wf()) ==> id.bytes_spec() != bytes,
{
    assert forall|id: Identifier| (#[trigger] id.wf()) implies id.bytes_spec() != bytes by {
        assert(id.bytes_spec().len() == 2 + id.value@.len());
        assert(id.value@.len() >= 1);
    }
}

/// No valid identifier encodes to these bytes when the kind byte is not a
/// known kind or the length byte disagrees with the remaining length, or a
/// numeric identifier's length is not four.
proof fn lemma_no_wf_bad_head(bytes: Seq<u8>)
    requires
        bytes.len() >= 2,
        (bytes[0] != 1 && bytes[0] != 2) || bytes.len() != 2 + bytes[1] || (bytes[0] == 1
            && bytes[1] != 4),
    ensures
        forall|id: Identifier| (#[trigger] id.wf()) ==> id.bytes_spec() != bytes,
{
    assert forall|id: Identifier| (#[trigger] id.wf()) implies id.bytes_spec() != bytes by {
        if id.bytes_spec() == bytes {
            assert(bytes[0] == kind_code(id.kind));
            assert(bytes[1] == id.length);
            assert(bytes.len() == 2 + id.value@.len());
        }
    }
}

/// No valid identifier encodes a zero numeric value.
proof fn lemma_no_wf_zero_numeric(bytes: Seq<u8>)
    requires
        bytes.len() == 6,
        bytes[0] == 1,
        bytes[1] == 4,
        spec_u32_from_le_bytes(bytes.skip(2)) == 0,
    ensures
        forall|id: Identifier| (#[trigger] id.wf()) ==> id.bytes_spec() != bytes,
{
    assert forall|id: Identifier| (#[trigger] id.wf()) implies id.bytes_spec() != bytes by {
        if id.bytes_spec() == bytes {
            assert(kind_code(id.kind) == 1);
            assert(id.kind == IdKind::Numeric);
            assert(id.value@ =~= bytes.skip(2));
        }
    }
}

/// No valid named identifier holds a non-ASCII byte.
proof fn lemma_no_wf_non_ascii(bytes: Seq<u8>, at: int)
    requires
        bytes.len() >= 3,
        bytes[0] == 2,
        2 <= at < bytes.len(),
        bytes[at] >= 128,
    ensures
        forall|id: Identifier| (#[trigger] id.wf()) ==> id.bytes_spec() != bytes,
{
    assert forall|id: Identifier| (#[trigger] id.wf()) implies id.bytes_spec() != bytes by {
        if id.bytes_spec() == bytes {
            assert(kind_code(id.kind) == 2);
            assert(id.kind == IdKind::Named);
            assert(id.value@[at - 2] == bytes[at]);
            assert(id.value@[at - 2] < 128);
        }
    }
}

/// The identifier every default-constructed command addresses: numeric
/// one.
pub fn first_numeric() -> (r: Identifier)
    ensures
        r.wf(),
        r.kind == IdKind::Numeric,
        r.numeric_value() == 1,
{
    proof {
        lemma_auto_spec_u32_to_from_le_bytes();
    }
    let bytes = u32_to_le_bytes(1);
    Identifier { kind: IdKind::Numeric, length: 4, value: bytes }
}

/// The number of characters of a string.
fn s_len_chars(s: &str) -> (r: usize)
    ensures
        r == s@.len(),
{
    s.unicode_len()
}

} // verus!
