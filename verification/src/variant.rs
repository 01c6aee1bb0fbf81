//! Telling which command is meant: by its place, its name, or the bytes of its name.

use vstd::prelude::*;
use vstd::utf8::{decode_utf8, encode_utf8, encode_utf8_decode_utf8, valid_utf8};

verus! {

/// The commands that are ever written, without what they carry.
#[derive(Clone, Copy, Debug, PartialEq, Eq, Structural)]
pub enum DiffCommandField {
    Enter,
    Value,
    Remove,
    Exit,
}

/// What is there in place of a command.
#[derive(Debug)]
pub enum VariantError {
    /// No command has this place.
    InvalidIndex(u64),
    /// No command has this name.
    UnknownVariant(String),
}

impl DiffCommandField {
    /// The command's place among the commands.
    pub open spec fn index(self) -> u64 {
        match self {
            DiffCommandField::Enter => 0,
            DiffCommandField::Value => 1,
            DiffCommandField::Remove => 2,
            DiffCommandField::Exit => 3,
        }
    }

    /// The command's name.
    pub open spec fn name(self) -> Seq<char> {
        match self {
            DiffCommandField::Enter => "Enter"@,
            DiffCommandField::Value => "Value"@,
            DiffCommandField::Remove => "Remove"@,
            DiffCommandField::Exit => "Exit"@,
        }
    }

    /// The command's place among the commands.
    pub fn variant_index(self) -> (r: u32)
        ensures
            r == self.index(),
    {
        match self {
            DiffCommandField::Enter => 0,
            DiffCommandField::Value => 1,
            DiffCommandField::Remove => 2,
            DiffCommandField::Exit => 3,
        }
    }

    /// The command's name.
    pub fn variant_name(self) -> (r: &'static str)
        ensures
            r@ == self.name(),
    {
        match self {
            DiffCommandField::Enter => "Enter",
            DiffCommandField::Value => "Value",
            DiffCommandField::Remove => "Remove",
            DiffCommandField::Exit => "Exit",
        }
    }
}

/// No two commands share a place, a name, or the bytes of a name: whichever of them is written,
/// the command that was meant is recognized.
pub proof fn law_variants_distinct(a: DiffCommandField, b: DiffCommandField)
    ensures
        a.index() == b.index() <==> a == b,
        a.name() == b.name() <==> a == b,
        encode_utf8(a.name()) == encode_utf8(b.name()) <==> a == b,
{
    reveal_strlit("Enter");
    reveal_strlit("Value");
    reveal_strlit("Remove");
    reveal_strlit("Exit");
    encode_utf8_decode_utf8(a.name());
    encode_utf8_decode_utf8(b.name());
    assert("Enter"@[0] != "Value"@[0]);
    assert("Enter"@[0] != "Remove"@[0]);
    assert("Enter"@[1] != "Exit"@[1]);
    assert("Value"@[0] != "Remove"@[0]);
    assert("Value"@[0] != "Exit"@[0]);
    assert("Remove"@[0] != "Exit"@[0]);
}

/// The text that bytes give if what is not UTF-8 in them is replaced.
pub uninterp spec fn utf8_lossy(bytes: Seq<u8>) -> Seq<char>;

/// Calls `String::from_utf8_lossy`. The text depends on the bytes alone; bytes that are UTF-8 give
/// the text that they encode.
#[verifier::external_body]
fn from_utf8_lossy(bytes: &[u8]) -> (r: String)
    ensures
        r@ == utf8_lossy(bytes@),
        valid_utf8(bytes@) ==> r@ == decode_utf8(bytes@),
{
    String::from_utf8_lossy(bytes).into_owned()
}

fn same_bytes(a: &[u8], b: &[u8]) -> (r: bool)
    ensures
        r == (a@ == b@),
{
    if a.len() != b.len() {
        return false;
    }
    let mut i: usize = 0;
    while i < a.len()
        invariant
            i <= a@.len(),
            a@.len() == b@.len(),
            forall|j: int| 0 <= j < i ==> a@[j] == b@[j],
        decreases a@.len() - i,
    {
        if a[i] != b[i] {
            return false;
        }
        i = i + 1;
    }
    assert(a@ =~= b@);
    true
}

/// The command whose name has these bytes.
fn find_by_name(bytes: &[u8]) -> (r: Option<DiffCommandField>)
    ensures
        match r {
            Some(field) => bytes@ == encode_utf8(field.name()),
            None => forall|field: DiffCommandField| bytes@ != encode_utf8(#[trigger] field.name()),
        },
{
    if same_bytes(bytes, "Enter".as_bytes()) {
        Some(DiffCommandField::Enter)
    } else if same_bytes(bytes, "Value".as_bytes()) {
        Some(DiffCommandField::Value)
    } else if same_bytes(bytes, "Remove".as_bytes()) {
        Some(DiffCommandField::Remove)
    } else if same_bytes(bytes, "Exit".as_bytes()) {
        Some(DiffCommandField::Exit)
    } else {
        None
    }
}

/// Recognizes the commands.
pub struct DiffCommandFieldVisitor;

impl DiffCommandFieldVisitor {
    pub fn visit_u64(self, value: u64) -> (r: Result<DiffCommandField, VariantError>)
        ensures
            match r {
                Ok(field) => field.index() == value,
                Err(e) => value >= 4 && e == VariantError::InvalidIndex(value),
            },
    {
        match value {
            0u64 => Ok(DiffCommandField::Enter),
            1u64 => Ok(DiffCommandField::Value),
            2u64 => Ok(DiffCommandField::Remove),
            3u64 => Ok(DiffCommandField::Exit),
            _ => Err(VariantError::InvalidIndex(value)),
        }
    }

    pub fn visit_str(self, value: &str) -> (r: Result<DiffCommandField, VariantError>)
        ensures
            match r {
                Ok(field) => value@ == field.name(),
                Err(e) => {
                    &&& forall|field: DiffCommandField| value@ != #[trigger] field.name()
                    &&& e matches VariantError::UnknownVariant(text) && text@ == value@
                },
            },
    {
        match find_by_name(value.as_bytes()) {
            Some(field) => {
                proof {
                    encode_utf8_decode_utf8(value@);
                    encode_utf8_decode_utf8(field.name());
                }
                Ok(field)
            },
            None => Err(VariantError::UnknownVariant(str::to_owned(value))),
        }
    }

    pub fn visit_bytes(self, value: &[u8]) -> (r: Result<DiffCommandField, VariantError>)
        ensures
            match r {
                Ok(field) => value@ == encode_utf8(field.name()),
                Err(e) => {
                    &&& forall|field: DiffCommandField|
                        value@ != encode_utf8(#[trigger] field.name())
                    &&& e matches VariantError::UnknownVariant(text) && {
                        &&& text@ == utf8_lossy(value@)
                        &&& valid_utf8(value@) ==> text@ == decode_utf8(value@)
                    }
                },
            },
    {
        match find_by_name(value) {
            Some(field) => Ok(field),
            None => Err(VariantError::UnknownVariant(from_utf8_lossy(value))),
        }
    }
}

} // verus!
