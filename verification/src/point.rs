use vstd::prelude::*;
use vstd::slice::slice_subrange;
use crate::error::SetupError;

verus! {

/// The error of the `hex` crate's decoder. Nothing is read from it.
#[verifier::external_type_specification]
#[verifier::external_body]
pub struct ExFromHexError(hex::FromHexError);

pub open spec fn is_hex_digit(c: u8) -> bool {
    (48 <= c <= 57) || (65 <= c <= 70) || (97 <= c <= 102)
}

/// The value of a hexadecimal digit, in either case.
pub open spec fn hex_digit_value(c: u8) -> int {
    if c <= 57 {
        c - 48
    } else if c <= 70 {
        c - 55
    } else {
        c - 87
    }
}

/// Whether `s` is an even number of hexadecimal digits.
pub open spec fn is_hex_text(s: Seq<u8>) -> bool {
    s.len() % 2 == 0 && forall|i: int| 0 <= i < s.len() ==> is_hex_digit(#[trigger] s[i])
}

/// The bytes that hexadecimal text writes, two digits to a byte, the high
/// digit first.
pub open spec fn hex_bytes(s: Seq<u8>) -> Seq<u8> {
    Seq::new(
        s.len() / 2,
        |i: int| (16 * hex_digit_value(s[2 * i]) + hex_digit_value(s[2 * i + 1])) as u8,
    )
}

/// Hex text without an optional leading `0x`.
pub open spec fn hex_body(s: Seq<u8>) -> Seq<u8> {
    if s.len() >= 2 && s[0] == 48u8 && s[1] == 120u8 {
        s.subrange(2, s.len() as int)
    } else {
        s
    }
}

/// Whether the curve library takes 48 bytes as a compressed point of the
/// primary group, subgroup membership not checked.
pub uninterp spec fn primary_point_accepted(bytes: Seq<u8>) -> bool;

/// Whether the curve library takes 96 bytes as a compressed point of the
/// secondary group, subgroup membership not checked.
pub uninterp spec fn secondary_point_accepted(bytes: Seq<u8>) -> bool;

/// Whether the curve library takes 48 bytes as a compressed point of the
/// primary group with subgroup membership checked: the point lies in the
/// prime-order subgroup.
pub uninterp spec fn primary_point_in_subgroup(bytes: Seq<u8>) -> bool;

/// Whether the curve library takes 96 bytes as a compressed point of the
/// secondary group with subgroup membership checked.
pub uninterp spec fn secondary_point_in_subgroup(bytes: Seq<u8>) -> bool;

/// Calls `hex::decode`. It succeeds exactly on an even number of
/// hexadecimal digits of either case, and then gives one byte for each pair
/// of digits, the first digit of a pair being the high half.
#[verifier::external_body]
fn decode_hex(text: &[u8]) -> (r: Result<Vec<u8>, hex::FromHexError>)
    ensures
        r is Ok <==> is_hex_text(text@),
        r is Ok ==> r->Ok_0@ == hex_bytes(text@),
{
    hex::decode(text)
}

/// Calls `bls12_381::G1Affine::from_compressed_unchecked` and says whether
/// it gave a point. The answer depends on the bytes alone.
#[verifier::external_body]
fn curve_accepts_primary(bytes: &[u8; 48]) -> (ok: bool)
    ensures
        ok == primary_point_accepted(bytes@),
{
    bool::from(bls12_381::G1Affine::from_compressed_unchecked(bytes).is_some())
}

/// Calls `bls12_381::G2Affine::from_compressed_unchecked` and says whether
/// it gave a point. The answer depends on the bytes alone.
#[verifier::external_body]
fn curve_accepts_secondary(bytes: &[u8; 96]) -> (ok: bool)
    ensures
        ok == secondary_point_accepted(bytes@),
{
    bool::from(bls12_381::G2Affine::from_compressed_unchecked(bytes).is_some())
}

/// Calls `bls12_381::G1Affine::from_compressed`, which decompresses and then
/// tests membership in the prime-order subgroup, and says whether it gave a
/// point. The answer depends on the bytes alone.
#[verifier::external_body]
pub(crate) fn curve_primary_in_subgroup(bytes: &[u8; 48]) -> (ok: bool)
    ensures
        ok == primary_point_in_subgroup(bytes@),
{
    bool::from(bls12_381::G1Affine::from_compressed(bytes).is_some())
}

/// Calls `bls12_381::G2Affine::from_compressed`, which decompresses and then
/// tests membership in the prime-order subgroup, and says whether it gave a
/// point. The answer depends on the bytes alone.
#[verifier::external_body]
pub(crate) fn curve_secondary_in_subgroup(bytes: &[u8; 96]) -> (ok: bool)
    ensures
        ok == secondary_point_in_subgroup(bytes@),
{
    bool::from(bls12_381::G2Affine::from_compressed(bytes).is_some())
}

/// The two groups of a setup's points.
#[derive(Clone, Copy, Debug, PartialEq, Eq, Structural)]
pub enum PointGroup {
    Primary,
    Secondary,
}

/// The length in bytes of a compressed point of `group`.
pub open spec fn encoded_len(group: PointGroup) -> nat {
    match group {
        PointGroup::Primary => 48,
        PointGroup::Secondary => 96,
    }
}

/// What a hex line encodes for a group whose points take `size` bytes.
pub open spec fn encoded_point(hex: Seq<u8>, size: nat) -> Result<Seq<u8>, SetupError> {
    let body = hex_body(hex);
    if !is_hex_text(body) {
        Err(SetupError::InvalidHexEncoding)
    } else if hex_bytes(body).len() != size {
        Err(SetupError::ByteLengthMismatch)
    } else {
        Ok(hex_bytes(body))
    }
}

/// What decoding a hex line as a primary point gives: the point's encoding,
/// or the error.
pub open spec fn primary_decoding(hex: Seq<u8>) -> Result<Seq<u8>, SetupError> {
    match encoded_point(hex, 48) {
        Err(e) => Err(e),
        Ok(b) => if primary_point_accepted(b) {
            Ok(b)
        } else {
            Err(SetupError::InvalidPointEncoding)
        },
    }
}

/// What decoding a hex line as a secondary point gives.
pub open spec fn secondary_decoding(hex: Seq<u8>) -> Result<Seq<u8>, SetupError> {
    match encoded_point(hex, 96) {
        Err(e) => Err(e),
        Ok(b) => if secondary_point_accepted(b) {
            Ok(b)
        } else {
            Err(SetupError::InvalidPointEncoding)
        },
    }
}

/// A point of the primary group that the curve library has accepted, held
/// in its compressed encoding. Decoding does not test subgroup membership;
/// the check of the setup's form tests it on the points that it pairs.
#[derive(Clone, Copy, Debug)]
pub struct PrimaryPoint {
    bytes: [u8; 48],
}

/// A point of the secondary group that the curve library has accepted, held
/// in its compressed encoding. Decoding does not test subgroup membership;
/// the check of the setup's form tests it on the points that it pairs.
#[derive(Clone, Copy, Debug)]
pub struct SecondaryPoint {
    bytes: [u8; 96],
}

impl View for PrimaryPoint {
    type V = Seq<u8>;

    closed spec fn view(&self) -> Seq<u8> {
        self.bytes@
    }
}

impl View for SecondaryPoint {
    type V = Seq<u8>;

    closed spec fn view(&self) -> Seq<u8> {
        self.bytes@
    }
}

impl PrimaryPoint {
    #[verifier::type_invariant]
    spec fn accepted(self) -> bool {
        primary_point_accepted(self.bytes@)
    }

    /// The compressed encoding that the point was decoded from.
    pub fn encoded(&self) -> (r: [u8; 48])
        ensures
            r@ == self@,
            primary_point_accepted(r@),
    {
        proof {
            use_type_invariant(self);
        }
        self.bytes
    }
}

impl SecondaryPoint {
    #[verifier::type_invariant]
    spec fn accepted(self) -> bool {
        secondary_point_accepted(self.bytes@)
    }

    /// The compressed encoding that the point was decoded from.
    pub fn encoded(&self) -> (r: [u8; 96])
        ensures
            r@ == self@,
            secondary_point_accepted(r@),
    {
        proof {
            use_type_invariant(self);
        }
        self.bytes
    }
}

/// Decodes hex text, with or without a leading `0x`, into bytes.
pub fn hex_to_bytes(hex_str: &[u8]) -> (r: Result<Vec<u8>, SetupError>)
    ensures
        match r {
            Ok(bytes) => is_hex_text(hex_body(hex_str@)) && bytes@ == hex_bytes(hex_body(hex_str@)),
            Err(e) => !is_hex_text(hex_body(hex_str@)) && e == SetupError::InvalidHexEncoding,
        },
{
    let len = hex_str.len();
    let body = if len >= 2 && hex_str[0] == 48 && hex_str[1] == 120 {
        slice_subrange(hex_str, 2, len)
    } else {
        hex_str
    };
    match decode_hex(body) {
        Ok(bytes) => Ok(bytes),
        Err(_) => Err(SetupError::InvalidHexEncoding),
    }
}

/// Decodes a hex line into the compressed encoding of a point of `group`,
/// checking its length.
pub fn decode_encoded_point(hex_str: &[u8], group: PointGroup) -> (r: Result<Vec<u8>, SetupError>)
    ensures
        match r {
            Ok(bytes) => encoded_point(hex_str@, encoded_len(group)) == Ok::<Seq<u8>, SetupError>(
                bytes@,
            ),
            Err(e) => encoded_point(hex_str@, encoded_len(group)) == Err::<Seq<u8>, SetupError>(e),
        },
{
    let bytes = hex_to_bytes(hex_str)?;
    let expected: usize = match group {
        PointGroup::Primary => 48,
        PointGroup::Secondary => 96,
    };
    if bytes.len() != expected {
        return Err(SetupError::ByteLengthMismatch);
    }
    Ok(bytes)
}

/// Decodes a hex line into a validated point of the primary group.
pub fn decode_primary_point(hex_str: &[u8]) -> (r: Result<PrimaryPoint, SetupError>)
    ensures
        match r {
            Ok(p) => primary_decoding(hex_str@) == Ok::<Seq<u8>, SetupError>(p@),
            Err(e) => primary_decoding(hex_str@) == Err::<Seq<u8>, SetupError>(e),
        },
{
    let encoded = decode_encoded_point(hex_str, PointGroup::Primary)?;
    let mut bytes: [u8; 48] = [0u8; 48];
    let mut i: usize = 0;
    while i < 48
        invariant
            i <= 48,
            encoded@.len() == 48,
            forall|j: int| 0 <= j < i ==> bytes@[j] == encoded@[j],
        decreases 48 - i,
    {
        bytes[i] = encoded[i];
        i = i + 1;
    }
    assert(bytes@ =~= encoded@);
    point_verdict(curve_accepts_primary(&bytes))?;
    Ok(PrimaryPoint { bytes })
}

/// Decodes a hex line into a validated point of the secondary group.
pub fn decode_secondary_point(hex_str: &[u8]) -> (r: Result<SecondaryPoint, SetupError>)
    ensures
        match r {
            Ok(p) => secondary_decoding(hex_str@) == Ok::<Seq<u8>, SetupError>(p@),
            Err(e) => secondary_decoding(hex_str@) == Err::<Seq<u8>, SetupError>(e),
        },
{
    let encoded = decode_encoded_point(hex_str, PointGroup::Secondary)?;
    let mut bytes: [u8; 96] = [0u8; 96];
    let mut i: usize = 0;
    while i < 96
        invariant
            i <= 96,
            encoded@.len() == 96,
            forall|j: int| 0 <= j < i ==> bytes@[j] == encoded@[j],
        decreases 96 - i,
    {
        bytes[i] = encoded[i];
        i = i + 1;
    }
    assert(bytes@ =~= encoded@);
    point_verdict(curve_accepts_secondary(&bytes))?;
    Ok(SecondaryPoint { bytes })
}

/// The encodings of a sequence of primary points.
pub open spec fn primary_views(points: Seq<PrimaryPoint>) -> Seq<Seq<u8>> {
    Seq::new(points.len(), |i: int| points[i]@)
}

/// The encodings of a sequence of secondary points.
pub open spec fn secondary_views(points: Seq<SecondaryPoint>) -> Seq<Seq<u8>> {
    Seq::new(points.len(), |i: int| points[i]@)
}

/// What the decoder makes of the curve library's answer on bytes of the
/// right length.
pub fn point_verdict(accepted: bool) -> (r: Result<(), SetupError>)
    ensures
        accepted <==> r is Ok,
        !accepted ==> r == Err::<(), SetupError>(SetupError::InvalidPointEncoding),
{
    if accepted {
        Ok(())
    } else {
        Err(SetupError::InvalidPointEncoding)
    }
}

/// A validated point of either group.
#[derive(Clone, Copy, Debug)]
pub enum ValidatedPoint {
    Primary(PrimaryPoint),
    Secondary(SecondaryPoint),
}

impl ValidatedPoint {
    /// The group of the point.
    pub open spec fn group(&self) -> PointGroup {
        match self {
            ValidatedPoint::Primary(_) => PointGroup::Primary,
            ValidatedPoint::Secondary(_) => PointGroup::Secondary,
        }
    }
}

impl View for ValidatedPoint {
    type V = Seq<u8>;

    open spec fn view(&self) -> Seq<u8> {
        match self {
            ValidatedPoint::Primary(p) => p@,
            ValidatedPoint::Secondary(p) => p@,
        }
    }
}

/// What decoding one hex line as a point of `group` gives.
pub open spec fn point_decoding(hex: Seq<u8>, group: PointGroup) -> Result<Seq<u8>, SetupError> {
    match group {
        PointGroup::Primary => primary_decoding(hex),
        PointGroup::Secondary => secondary_decoding(hex),
    }
}

/// A decoded point has the length of its group, is accepted by the curve
/// library, and its encoding is the bytes that the hex line writes: encoding
/// it again gives those bytes back.
pub proof fn lemma_decoding_keeps_bytes(hex: Seq<u8>, group: PointGroup)
    requires
        point_decoding(hex, group) is Ok,
    ensures
        is_hex_text(hex_body(hex)),
        point_decoding(hex, group)->Ok_0 == hex_bytes(hex_body(hex)),
        point_decoding(hex, group)->Ok_0.len() == encoded_len(group),
        group == PointGroup::Primary ==> primary_point_accepted(hex_bytes(hex_body(hex))),
        group == PointGroup::Secondary ==> secondary_point_accepted(hex_bytes(hex_body(hex))),
{
}

/// Decodes a hex line into a validated point of `group`.
pub fn decode_point(hex_str: &[u8], group: PointGroup) -> (r: Result<ValidatedPoint, SetupError>)
    ensures
        match r {
            Ok(p) => p.group() == group && point_decoding(hex_str@, group) == Ok::<
                Seq<u8>,
                SetupError,
            >(p@),
            Err(e) => point_decoding(hex_str@, group) == Err::<Seq<u8>, SetupError>(e),
        },
{
    match group {
        PointGroup::Primary => {
            let p = decode_primary_point(hex_str)?;
            Ok(ValidatedPoint::Primary(p))
        },
        PointGroup::Secondary => {
            let p = decode_secondary_point(hex_str)?;
            Ok(ValidatedPoint::Secondary(p))
        },
    }
}

} // verus!
