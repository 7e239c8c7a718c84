//! Notification categories.
use crate::error::DecodeError;
use crate::wire::le_u8;
use crate::wire::parsed;
use vstd::prelude::*;
use vstd::std_specs::convert::FromSpecImpl;
use vstd::std_specs::convert::TryFromSpecImpl;

verus! {

/// The kind of notification, as the provider classified it.
#[derive(Debug, PartialEq, Eq, Clone, Copy, Structural)]
pub enum CategoryID {
    Other,
    IncomingCall,
    MissedCall,
    Voicemail,
    Social,
    Schedule,
    Email,
    News,
    HealthAndFitness,
    BusinessAndFinance,
    Location,
    Entertainment,
}

/// A byte that names no `CategoryID`.
#[derive(Debug, Clone, Copy, PartialEq, Eq, Structural)]
pub struct CategoryIDError;

impl CategoryID {
    /// The byte that stands for this category on the wire.
    pub open spec fn byte(self) -> u8 {
        match self {
            CategoryID::Other => 0,
            CategoryID::IncomingCall => 1,
            CategoryID::MissedCall => 2,
            CategoryID::Voicemail => 3,
            CategoryID::Social => 4,
            CategoryID::Schedule => 5,
            CategoryID::Email => 6,
            CategoryID::News => 7,
            CategoryID::HealthAndFitness => 8,
            CategoryID::BusinessAndFinance => 9,
            CategoryID::Location => 10,
            CategoryID::Entertainment => 11,
        }
    }

    /// The category that a byte stands for, if it stands for one.
    pub open spec fn from_byte(b: u8) -> Option<CategoryID> {
        if b == 0 {
            Some(CategoryID::Other)
        } else if b == 1 {
            Some(CategoryID::IncomingCall)
        } else if b == 2 {
            Some(CategoryID::MissedCall)
        } else if b == 3 {
            Some(CategoryID::Voicemail)
        } else if b == 4 {
            Some(CategoryID::Social)
        } else if b == 5 {
            Some(CategoryID::Schedule)
        } else if b == 6 {
            Some(CategoryID::Email)
        } else if b == 7 {
            Some(CategoryID::News)
        } else if b == 8 {
            Some(CategoryID::HealthAndFitness)
        } else if b == 9 {
            Some(CategoryID::BusinessAndFinance)
        } else if b == 10 {
            Some(CategoryID::Location)
        } else if b == 11 {
            Some(CategoryID::Entertainment)
        } else {
            None
        }
    }

    /// What reading one category off the front of `bytes` gives: the bytes
    /// that follow and the category, or the reason there is none.
    pub open spec fn parse_spec(bytes: Seq<u8>) -> Result<(Seq<u8>, CategoryID), DecodeError> {
        if bytes.len() == 0 {
            Err(DecodeError::TruncatedInput)
        } else {
            match CategoryID::from_byte(bytes[0]) {
                Some(v) => Ok((bytes.skip(1), v)),
                None => Err(DecodeError::UnknownEnumValue),
            }
        }
    }

    /// Reads one category off the front of `i`.
    ///
    /// Consumes exactly one byte. Fails with `TruncatedInput` on empty input
    /// and with `UnknownEnumValue` on a byte that names no category.
    pub fn parse(i: &[u8]) -> (r: Result<(&[u8], CategoryID), DecodeError>)
        ensures
            parsed(r) == CategoryID::parse_spec(i@),
    {
        match le_u8(i) {
            None => Err(DecodeError::TruncatedInput),
            Some((rest, b)) => match CategoryID::try_from(b) {
                Ok(v) => Ok((rest, v)),
                Err(_) => Err(DecodeError::UnknownEnumValue),
            },
        }
    }
}

impl From<CategoryID> for u8 {
    /// The byte that stands for `original` on the wire.
    fn from(original: CategoryID) -> (byte: u8)
        ensures
            byte == original.byte(),
    {
        match original {
            CategoryID::Other => 0,
            CategoryID::IncomingCall => 1,
            CategoryID::MissedCall => 2,
            CategoryID::Voicemail => 3,
            CategoryID::Social => 4,
            CategoryID::Schedule => 5,
            CategoryID::Email => 6,
            CategoryID::News => 7,
            CategoryID::HealthAndFitness => 8,
            CategoryID::BusinessAndFinance => 9,
            CategoryID::Location => 10,
            CategoryID::Entertainment => 11,
        }
    }
}

impl FromSpecImpl<CategoryID> for u8 {
    open spec fn obeys_from_spec() -> bool {
        true
    }

    open spec fn from_spec(v: CategoryID) -> u8 {
        v.byte()
    }
}

impl TryFrom<u8> for CategoryID {
    type Error = CategoryIDError;

    /// The category that `original` stands for; an error for any other byte.
    fn try_from(original: u8) -> (r: Result<CategoryID, CategoryIDError>)
        ensures
            r is Ok <==> CategoryID::from_byte(original) is Some,
            r matches Ok(v) ==> CategoryID::from_byte(original) == Some(v),
    {
        match original {
            0 => Ok(CategoryID::Other),
            1 => Ok(CategoryID::IncomingCall),
            2 => Ok(CategoryID::MissedCall),
            3 => Ok(CategoryID::Voicemail),
            4 => Ok(CategoryID::Social),
            5 => Ok(CategoryID::Schedule),
            6 => Ok(CategoryID::Email),
            7 => Ok(CategoryID::News),
            8 => Ok(CategoryID::HealthAndFitness),
            9 => Ok(CategoryID::BusinessAndFinance),
            10 => Ok(CategoryID::Location),
            11 => Ok(CategoryID::Entertainment),
            _ => Err(CategoryIDError),
        }
    }
}

impl TryFromSpecImpl<u8> for CategoryID {
    open spec fn obeys_try_from_spec() -> bool {
        true
    }

    open spec fn try_from_spec(v: u8) -> Result<CategoryID, CategoryIDError> {
        match CategoryID::from_byte(v) {
            Some(x) => Ok(x),
            None => Err(CategoryIDError),
        }
    }
}

/// Every category is found again from its byte, and the bytes that name
/// a category are exactly those below 12; each of them is the byte of
/// the category it names.
pub proof fn lemma_category_id_bytes(v: CategoryID, b: u8)
    ensures
        CategoryID::from_byte(v.byte()) == Some(v),
        CategoryID::from_byte(b) is Some <==> b < 12,
        CategoryID::from_byte(b) matches Some(w) ==> w.byte() == b,
{
}

/// The byte of a category, followed by anything, is read as that
/// category and leaves what followed.
pub proof fn lemma_category_id_parse_of(v: CategoryID, tail: Seq<u8>)
    ensures
        CategoryID::parse_spec(seq![v.byte()] + tail) == Ok::<(Seq<u8>, CategoryID), DecodeError>(
            (tail, v),
        ),
{
    let bytes = seq![v.byte()] + tail;
    assert(bytes[0] == v.byte());
    assert(bytes.skip(1) =~= tail);
}

/// Whatever a category was read from is the byte of that category
/// followed by what was left.
pub proof fn lemma_category_id_bytes_of_parse(bytes: Seq<u8>)
    ensures
        CategoryID::parse_spec(bytes) matches Ok((rest, v)) ==> bytes == seq![v.byte()] + rest,
{
    if let Ok((rest, v)) = CategoryID::parse_spec(bytes) {
        assert(bytes =~= seq![v.byte()] + rest);
    }
}

} // verus!
