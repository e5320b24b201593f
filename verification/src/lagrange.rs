use vstd::prelude::*;
use crate::point::{
    curve_primary_in_subgroup,
    curve_secondary_in_subgroup,
    primary_point_in_subgroup,
    primary_views,
    secondary_point_in_subgroup,
    secondary_views,
    PrimaryPoint,
    SecondaryPoint,
};

verus! {

/// What the check of a setup's form found.
#[derive(Clone, Copy, Debug, PartialEq, Eq, Structural)]
pub enum LagrangeCheck {
    /// The points are not consecutive powers: the setup is taken to be in
    /// Lagrange form.
    Lagrange,
    /// The first points of both groups are consecutive powers of one secret:
    /// the setup is in monomial form.
    Monomial,
    /// A group has fewer than two points, so nothing can be compared.
    TooFewPoints,
    /// One of the first two points of a group lies outside the prime-order
    /// subgroup, so the points cannot be paired.
    OutsideSubgroup,
}

/// Whether the pairing of `a1` with `a2` equals the pairing of `b1` with
/// `b2`, the four given as compressed encodings of points in the
/// prime-order subgroups.
pub uninterp spec fn pairings_agree(a1: Seq<u8>, a2: Seq<u8>, b1: Seq<u8>, b2: Seq<u8>) -> bool;

/// Decompresses the four points with `from_compressed` of
/// `bls12_381::G1Affine` and `G2Affine`, and compares
/// `bls12_381::pairing(a1, a2)` with `bls12_381::pairing(b1, b2)`. The
/// answer depends on the bytes alone. By the precondition all four lie in
/// the prime-order subgroups: decompression gives a point on each, and the
/// pairing is defined on them. On a point outside the subgroup the pairing
/// of the curve library may panic, so such points are left out.
#[verifier::external_body]
fn curve_pairings_agree(a1: &[u8; 48], a2: &[u8; 96], b1: &[u8; 48], b2: &[u8; 96]) -> (eq: bool)
    requires
        primary_point_in_subgroup(a1@),
        secondary_point_in_subgroup(a2@),
        primary_point_in_subgroup(b1@),
        secondary_point_in_subgroup(b2@),
    ensures
        eq == pairings_agree(a1@, a2@, b1@, b2@),
{
    let left_g1 = bls12_381::G1Affine::from_compressed(a1).unwrap();
    let left_g2 = bls12_381::G2Affine::from_compressed(a2).unwrap();
    let right_g1 = bls12_381::G1Affine::from_compressed(b1).unwrap();
    let right_g2 = bls12_381::G2Affine::from_compressed(b2).unwrap();
    bls12_381::pairing(&left_g1, &left_g2) == bls12_381::pairing(&right_g1, &right_g2)
}

/// Whether the first two points of each group lie in the prime-order
/// subgroups.
pub open spec fn first_points_in_subgroup(primary: Seq<Seq<u8>>, secondary: Seq<Seq<u8>>) -> bool
    recommends
        primary.len() >= 2,
        secondary.len() >= 2,
{
    &&& primary_point_in_subgroup(primary[0])
    &&& primary_point_in_subgroup(primary[1])
    &&& secondary_point_in_subgroup(secondary[0])
    &&& secondary_point_in_subgroup(secondary[1])
}

/// The verdict on the subgroup tests of the four points that are to be
/// paired: `None` where all four passed and the comparison decides.
pub fn verdict_of_subgroup_tests(
    first_primary: bool,
    second_primary: bool,
    first_secondary: bool,
    second_secondary: bool,
) -> (r: Option<LagrangeCheck>)
    ensures
        r == if first_primary && second_primary && first_secondary && second_secondary {
            None::<LagrangeCheck>
        } else {
            Some(LagrangeCheck::OutsideSubgroup)
        },
{
    if first_primary && second_primary && first_secondary && second_secondary {
        None
    } else {
        Some(LagrangeCheck::OutsideSubgroup)
    }
}

/// The form of a setup, from the encodings of its points in file order. In
/// monomial form point `k` of a group is the generator times the `k`-th
/// power of the secret, so pairing the second primary point with the first
/// secondary one gives what pairing the first primary with the second
/// secondary one gives. The four points are paired only where all of them
/// lie in the prime-order subgroups.
pub open spec fn lagrange_verdict(primary: Seq<Seq<u8>>, secondary: Seq<Seq<u8>>) -> LagrangeCheck {
    if primary.len() < 2 || secondary.len() < 2 {
        LagrangeCheck::TooFewPoints
    } else if !first_points_in_subgroup(primary, secondary) {
        LagrangeCheck::OutsideSubgroup
    } else if pairings_agree(primary[1], secondary[0], primary[0], secondary[1]) {
        LagrangeCheck::Monomial
    } else {
        LagrangeCheck::Lagrange
    }
}

/// The form of a setup that has two points in each group, from the answer
/// of the pairing comparison.
pub fn form_of_comparison(agree: bool) -> (r: LagrangeCheck)
    ensures
        agree ==> r == LagrangeCheck::Monomial,
        !agree ==> r == LagrangeCheck::Lagrange,
{
    if agree {
        LagrangeCheck::Monomial
    } else {
        LagrangeCheck::Lagrange
    }
}

/// Checks the form of a setup on its decoded points, in file order. The
/// first two points of each group are tested for subgroup membership before
/// they are paired.
pub fn check_lagrange_form(primary: &Vec<PrimaryPoint>, secondary: &Vec<SecondaryPoint>) -> (r:
    LagrangeCheck)
    ensures
        r == lagrange_verdict(primary_views(primary@), secondary_views(secondary@)),
{
    if primary.len() < 2 || secondary.len() < 2 {
        return LagrangeCheck::TooFewPoints;
    }
    let a1 = primary[1].encoded();
    let a2 = secondary[0].encoded();
    let b1 = primary[0].encoded();
    let b2 = secondary[1].encoded();
    let tests = verdict_of_subgroup_tests(
        curve_primary_in_subgroup(&b1),
        curve_primary_in_subgroup(&a1),
        curve_secondary_in_subgroup(&a2),
        curve_secondary_in_subgroup(&b2),
    );
    match tests {
        Some(verdict) => verdict,
        None => form_of_comparison(curve_pairings_agree(&a1, &a2, &b1, &b2)),
    }
}

} // verus!
