//! What can go wrong when a payload is encoded or decoded.

use reed_solomon_erasure::Error as RsError;
use std::sync::Arc;
use vstd::prelude::*;
use vstd::string::{StringExecFns, StrSliceExecFns};

verus! {

/// Declares the error of the Reed-Solomon crate, an enum without fields, with its
/// variants.
#[verifier::external_type_specification]
pub struct ExError(reed_solomon_erasure::Error);

/// Why a payload was not encoded.
#[derive(Debug)]
pub enum EncodeError {
    /// Payload length doesn't fit in the 32-bit length header.
    PayloadTooLarge,
    /// The Reed-Solomon codec refused to be built or to encode.
    RsError(Arc<RsError>),
}

/// Why no payload was decoded.
#[derive(Debug)]
pub enum DecodeError {
    /// Fewer than `DATA_PSHREDS` shreds were present; decoding fails closed
    /// rather than returning partial or incorrect data.
    InsufficientShreds { have: usize, need: usize },
    /// Input shred count wasn't `TOTAL_PSHREDS`, or present shreds have
    /// inconsistent lengths or are too short for the header.
    ShardSizeMismatch,
    /// Reconstructed data shards disagree on the encoded payload length.
    Corrupt,
    /// The Reed-Solomon codec refused to be built or to reconstruct.
    RsError(Arc<RsError>),
}

/// The character of a decimal digit.
pub open spec fn digit(d: nat) -> char {
    if d == 0 {
        '0'
    } else if d == 1 {
        '1'
    } else if d == 2 {
        '2'
    } else if d == 3 {
        '3'
    } else if d == 4 {
        '4'
    } else if d == 5 {
        '5'
    } else if d == 6 {
        '6'
    } else if d == 7 {
        '7'
    } else if d == 8 {
        '8'
    } else {
        '9'
    }
}

/// A number in decimal, without leading zeros.
pub open spec fn decimal(n: nat) -> Seq<char>
    decreases n,
{
    if n < 10 {
        seq![digit(n)]
    } else {
        decimal(n / 10).push(digit(n % 10))
    }
}

/// The name of a variant.
pub open spec fn variant_name(e: RsError) -> Seq<char> {
    match e {
        RsError::TooFewShards => "TooFewShards"@,
        RsError::TooManyShards => "TooManyShards"@,
        RsError::TooFewDataShards => "TooFewDataShards"@,
        RsError::TooManyDataShards => "TooManyDataShards"@,
        RsError::TooFewParityShards => "TooFewParityShards"@,
        RsError::TooManyParityShards => "TooManyParityShards"@,
        RsError::TooFewBufferShards => "TooFewBufferShards"@,
        RsError::TooManyBufferShards => "TooManyBufferShards"@,
        RsError::IncorrectShardSize => "IncorrectShardSize"@,
        RsError::TooFewShardsPresent => "TooFewShardsPresent"@,
        RsError::EmptyShard => "EmptyShard"@,
        RsError::InvalidShardFlags => "InvalidShardFlags"@,
        RsError::InvalidIndex => "InvalidIndex"@,
    }
}

/// The characters of the digits follow each other, from `0` on.
pub proof fn digits_follow_each_other(d: nat)
    requires
        d < 10,
    ensures
        digit(d) as int == '0' as int + d,
{
}

/// A number in decimal reads back as that number, digit by digit from the left, and
/// has no leading zero.
pub proof fn decimal_reads_back(n: nat)
    ensures
        decimal(n).len() > 0,
        decimal(n).fold_left(0int, |value: int, c: char| value * 10 + (c as int - '0' as int))
            == n,
        forall|i: int|
            0 <= i < decimal(n).len() ==> '0' as int <= (#[trigger] decimal(n)[i]) as int
                <= '9' as int,
        n > 0 ==> decimal(n)[0] != '0',
        n == 0 ==> decimal(n).len() == 1,
    decreases n,
{
    let f = |value: int, c: char| value * 10 + (c as int - '0' as int);
    digits_follow_each_other(n % 10);
    if n < 10 {
        assert(decimal(n).drop_last() =~= Seq::<char>::empty());
        assert(decimal(n).drop_last().fold_left(0int, f) == 0);
        assert(decimal(n).last() == digit(n));
    } else {
        decimal_reads_back(n / 10);
        assert(decimal(n).drop_last() =~= decimal(n / 10));
        assert(decimal(n).last() == digit(n % 10));
        assert(decimal(n)[0] == decimal(n / 10)[0]);
    }
}

/// Appends a decimal digit.
fn push_digit(text: &mut String, d: usize)
    requires
        d < 10,
    ensures
        final(text)@ == old(text)@.push(digit(d as nat)),
{
    let digits: &str = "0123456789";
    proof {
        reveal_strlit("0123456789");
    }
    text.append(digits.substring_char(d, d + 1));
    assert(text@ =~= old(text)@.push(digit(d as nat)));
}

/// Appends a number in decimal.
fn push_decimal(text: &mut String, n: usize)
    ensures
        final(text)@ == old(text)@ + decimal(n as nat),
    decreases n,
{
    if n >= 10 {
        push_decimal(text, n / 10);
    }
    push_digit(text, n % 10);
    assert(text@ =~= old(text)@ + decimal(n as nat));
}

/// Appends the name of a variant.
fn push_variant_name(text: &mut String, e: &RsError)
    ensures
        final(text)@ == old(text)@ + variant_name(*e),
{
    match e {
        RsError::TooFewShards => text.append("TooFewShards"),
        RsError::TooManyShards => text.append("TooManyShards"),
        RsError::TooFewDataShards => text.append("TooFewDataShards"),
        RsError::TooManyDataShards => text.append("TooManyDataShards"),
        RsError::TooFewParityShards => text.append("TooFewParityShards"),
        RsError::TooManyParityShards => text.append("TooManyParityShards"),
        RsError::TooFewBufferShards => text.append("TooFewBufferShards"),
        RsError::TooManyBufferShards => text.append("TooManyBufferShards"),
        RsError::IncorrectShardSize => text.append("IncorrectShardSize"),
        RsError::TooFewShardsPresent => text.append("TooFewShardsPresent"),
        RsError::EmptyShard => text.append("EmptyShard"),
        RsError::InvalidShardFlags => text.append("InvalidShardFlags"),
        RsError::InvalidIndex => text.append("InvalidIndex"),
    }
}

impl EncodeError {
    /// The text that describes the error.
    pub open spec fn text(&self) -> Seq<char> {
        match self {
            EncodeError::PayloadTooLarge => "payload exceeds maximum encodable size"@,
            EncodeError::RsError(e) => "reed-solomon encode error: "@ + variant_name(**e),
        }
    }

    /// Describes the error.
    pub fn message(&self) -> (text: String)
        ensures
            text@ == self.text(),
            self is PayloadTooLarge ==> text@ == "payload exceeds maximum encodable size"@,
            self is RsError ==> text@ == "reed-solomon encode error: "@ + variant_name(
                *self->RsError_0,
            ),
    {
        match self {
            EncodeError::PayloadTooLarge => String::from_str(
                "payload exceeds maximum encodable size",
            ),
            EncodeError::RsError(e) => {
                let mut text = String::from_str("reed-solomon encode error: ");
                push_variant_name(&mut text, &**e);
                text
            },
        }
    }
}

impl DecodeError {
    /// The text that describes the error.
    pub open spec fn text(&self) -> Seq<char> {
        match self {
            DecodeError::InsufficientShreds { have, need } => {
                "insufficient shreds to reconstruct: have "@ + decimal(*have as nat) + ", need "@
                    + decimal(*need as nat)
            },
            DecodeError::ShardSizeMismatch => "shred size mismatch"@,
            DecodeError::Corrupt => "reconstructed data is internally inconsistent"@,
            DecodeError::RsError(e) => "reed-solomon decode error: "@ + variant_name(**e),
        }
    }

    /// Describes the error.
    pub fn message(&self) -> (text: String)
        ensures
            text@ == self.text(),
            self is InsufficientShreds ==> text@ == "insufficient shreds to reconstruct: have "@
                + decimal(self->have as nat) + ", need "@ + decimal(self->need as nat),
            self is ShardSizeMismatch ==> text@ == "shred size mismatch"@,
            self is Corrupt ==> text@ == "reconstructed data is internally inconsistent"@,
            self is RsError ==> text@ == "reed-solomon decode error: "@ + variant_name(
                *self->RsError_0,
            ),
    {
        match self {
            DecodeError::InsufficientShreds { have, need } => {
                let mut text = String::from_str("insufficient shreds to reconstruct: have ");
                push_decimal(&mut text, *have);
                text.append(", need ");
                push_decimal(&mut text, *need);
                text
            },
            DecodeError::ShardSizeMismatch => String::from_str("shred size mismatch"),
            DecodeError::Corrupt => String::from_str(
                "reconstructed data is internally inconsistent",
            ),
            DecodeError::RsError(e) => {
                let mut text = String::from_str("reed-solomon decode error: ");
                push_variant_name(&mut text, &**e);
                text
            },
        }
    }
}

} // verus!
