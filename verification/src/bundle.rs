use vstd::prelude::*;
use crate::bitrev::{
    bit_reversal_permutation,
    bit_reversed,
    lemma_exact_width_permutable,
    permutable,
};
use crate::domain::{
    ceil_power_of_two,
    domain_fits,
    domain_width_of,
    is_power_of_two,
    lemma_domain_fits,
    lemma_power_of_two_is_own_width,
    lemma_two_pow_grows,
    log2_ceil,
    two_pow,
};
use crate::error::SetupError;
use crate::lagrange::{check_lagrange_form, lagrange_verdict, LagrangeCheck};
use crate::parse::{count_value, has_line, line, line_views, parse_setup, parsed_setup};
use crate::point::{
    decode_primary_point,
    decode_secondary_point,
    point_decoding,
    primary_views,
    secondary_views,
    PointGroup,
    PrimaryPoint,
    SecondaryPoint,
};

verus! {

/// What a parameter bundle holds, points by their encodings.
pub struct BundleModel {
    pub max_width: nat,
    pub primary: Seq<Seq<u8>>,
    pub secondary: Seq<Seq<u8>>,
}

/// The parameters of the commitment scheme: the domain width, the primary
/// points in bit-reversed order and the secondary points in file order.
#[derive(Clone, Debug)]
pub struct ParameterBundle {
    max_width: usize,
    primary_points: Vec<PrimaryPoint>,
    secondary_points: Vec<SecondaryPoint>,
}

impl View for ParameterBundle {
    type V = BundleModel;

    closed spec fn view(&self) -> BundleModel {
        BundleModel {
            max_width: self.max_width as nat,
            primary: primary_views(self.primary_points@),
            secondary: secondary_views(self.secondary_points@),
        }
    }
}

impl ParameterBundle {
    /// The width of the evaluation domain.
    pub fn max_width(&self) -> (w: usize)
        ensures
            w == self@.max_width,
    {
        self.max_width
    }

    /// The primary points, in bit-reversed order.
    pub fn primary_points(&self) -> (r: &Vec<PrimaryPoint>)
        ensures
            primary_views(r@) == self@.primary,
    {
        &self.primary_points
    }

    /// The secondary points, in file order.
    pub fn secondary_points(&self) -> (r: &Vec<SecondaryPoint>)
        ensures
            secondary_views(r@) == self@.secondary,
    {
        &self.secondary_points
    }
}

/// What decoding hex lines in order gives: every point's encoding, or the
/// error of the first line that fails.
pub open spec fn decode_all(hexes: Seq<Seq<u8>>, group: PointGroup) -> Result<
    Seq<Seq<u8>>,
    SetupError,
>
    decreases hexes.len(),
{
    if hexes.len() == 0 {
        Ok(Seq::empty())
    } else {
        match decode_all(hexes.drop_last(), group) {
            Err(e) => Err(e),
            Ok(points) => match point_decoding(hexes.last(), group) {
                Err(e) => Err(e),
                Ok(p) => Ok(points.push(p)),
            },
        }
    }
}

/// What the decoded points of a setup, in file order, are assembled to.
/// Beside a setup without primary points, four kinds of setup are refused:
/// - one whose domain width is no machine-sized integer
///   (`PermutationWidthMismatch`);
/// - one with two or more points in each group of which one of the first
///   two lies outside the prime-order subgroup (`InvalidPointEncoding`);
/// - one found to be in monomial form (`LagrangeFormInvalid`);
/// - one whose primary count is not closed under bit reversal over its
///   width (`PermutationWidthMismatch`). A count that is a power of two is
///   always closed. Of the others only some are: three points over width
///   four are, while five, six or nine points are not (with five points over
///   width eight, slot three would take the item at index six, which does
///   not exist). That the width covers the count is therefore not enough.
pub open spec fn ordered_setup(primary: Seq<Seq<u8>>, secondary: Seq<Seq<u8>>) -> Result<
    BundleModel,
    SetupError,
> {
    let n = primary.len();
    let width = domain_width_of(n);
    if n == 0 {
        Err(SetupError::EmptyPointSet)
    } else if !domain_fits(n) {
        Err(SetupError::PermutationWidthMismatch)
    } else if lagrange_verdict(primary, secondary) == LagrangeCheck::OutsideSubgroup {
        Err(SetupError::InvalidPointEncoding)
    } else if lagrange_verdict(primary, secondary) == LagrangeCheck::Monomial {
        Err(SetupError::LagrangeFormInvalid)
    } else if !permutable(n, width) {
        Err(SetupError::PermutationWidthMismatch)
    } else {
        Ok(
            BundleModel {
                max_width: width,
                primary: bit_reversed(primary, log2_ceil(width)),
                secondary,
            },
        )
    }
}

/// What loading a setup text gives.
pub open spec fn loaded_setup(text: Seq<u8>) -> Result<BundleModel, SetupError> {
    match parsed_setup(text) {
        Err(e) => Err(e),
        Ok((primary_hex, secondary_hex)) => match decode_all(primary_hex, PointGroup::Primary) {
            Err(e) => Err(e),
            Ok(primary) => match decode_all(secondary_hex, PointGroup::Secondary) {
                Err(e) => Err(e),
                Ok(secondary) => ordered_setup(primary, secondary),
            },
        },
    }
}

/// Decoding keeps the number of lines.
pub proof fn lemma_decode_all_len(hexes: Seq<Seq<u8>>, group: PointGroup)
    ensures
        decode_all(hexes, group) is Ok ==> decode_all(hexes, group)->Ok_0.len() == hexes.len(),
    decreases hexes.len(),
{
    if hexes.len() > 0 {
        lemma_decode_all_len(hexes.drop_last(), group);
    }
}

/// A loaded bundle has as many points in each group as the header of the
/// text declares, and its width is the domain width of the primary count.
pub proof fn lemma_loaded_counts(text: Seq<u8>)
    requires
        loaded_setup(text) is Ok,
    ensures
        count_value(line(text, 0)) == Some(loaded_setup(text)->Ok_0.primary.len() as usize),
        count_value(line(text, 1)) == Some(loaded_setup(text)->Ok_0.secondary.len() as usize),
        loaded_setup(text)->Ok_0.max_width == domain_width_of(
            loaded_setup(text)->Ok_0.primary.len(),
        ),
{
    let parsed = parsed_setup(text)->Ok_0;
    lemma_decode_all_len(parsed.0, PointGroup::Primary);
    lemma_decode_all_len(parsed.1, PointGroup::Secondary);
    assert(has_line(text, 0));
}

/// The secondary points of a loaded bundle are the decoded secondary lines
/// of the text, in file order.
pub proof fn lemma_loaded_secondary_in_file_order(text: Seq<u8>)
    requires
        loaded_setup(text) is Ok,
    ensures
        parsed_setup(text) is Ok,
        decode_all(parsed_setup(text)->Ok_0.1, PointGroup::Secondary) == Ok::<
            Seq<Seq<u8>>,
            SetupError,
        >(loaded_setup(text)->Ok_0.secondary),
{
}

/// Points whose count is a power of two, fits the machine, and that are
/// found neither outside the subgroup nor in monomial form are always
/// assembled: the width is their count, and reordering cannot fail.
pub proof fn lemma_power_of_two_count_assembles(primary: Seq<Seq<u8>>, secondary: Seq<Seq<u8>>)
    requires
        is_power_of_two(primary.len()),
        primary.len() <= usize::MAX,
        lagrange_verdict(primary, secondary) != LagrangeCheck::Monomial,
        lagrange_verdict(primary, secondary) != LagrangeCheck::OutsideSubgroup,
    ensures
        ordered_setup(primary, secondary) == Ok::<BundleModel, SetupError>(
            BundleModel {
                max_width: primary.len(),
                primary: bit_reversed(primary, log2_ceil(primary.len())),
                secondary,
            },
        ),
{
    let n = primary.len();
    lemma_power_of_two_is_own_width(n);
    lemma_exact_width_permutable(n);
    lemma_domain_fits(n);
    assert(n > 0) by {
        let k = choose|k: nat| two_pow(k) == n;
        lemma_two_pow_grows(k);
    }
}

/// Decodes the primary hex lines in order, stopping at the first that fails.
pub fn decode_primary_points(hexes: &Vec<Vec<u8>>) -> (r: Result<Vec<PrimaryPoint>, SetupError>)
    ensures
        match r {
            Ok(points) => decode_all(line_views(hexes@), PointGroup::Primary) == Ok::<
                Seq<Seq<u8>>,
                SetupError,
            >(primary_views(points@)),
            Err(e) => decode_all(line_views(hexes@), PointGroup::Primary) == Err::<
                Seq<Seq<u8>>,
                SetupError,
            >(e),
        },
{
    let ghost all = line_views(hexes@);
    let mut points: Vec<PrimaryPoint> = Vec::new();
    let mut i: usize = 0;
    assert(all.take(0) =~= Seq::<Seq<u8>>::empty());
    assert(primary_views(points@) =~= Seq::<Seq<u8>>::empty());
    while i < hexes.len()
        invariant
            i <= hexes@.len(),
            all == line_views(hexes@),
            decode_all(all.take(i as int), PointGroup::Primary) == Ok::<Seq<Seq<u8>>, SetupError>(
                primary_views(points@),
            ),
        decreases hexes@.len() - i,
    {
        proof {
            assert(all.take(i + 1).drop_last() =~= all.take(i as int));
            assert(all.take(i + 1).last() == hexes@[i as int]@);
        }
        let ghost before = primary_views(points@);
        match decode_primary_point(hexes[i].as_slice()) {
            Ok(p) => {
                points.push(p);
                assert(primary_views(points@) =~= before.push(p@));
            },
            Err(e) => {
                proof {
                    lemma_decode_all_prefix_fails(all, i + 1, PointGroup::Primary);
                }
                return Err(e);
            },
        }
        i = i + 1;
    }
    assert(all.take(i as int) =~= all);
    Ok(points)
}

/// Decodes the secondary hex lines in order, stopping at the first that
/// fails.
pub fn decode_secondary_points(hexes: &Vec<Vec<u8>>) -> (r: Result<
    Vec<SecondaryPoint>,
    SetupError,
>)
    ensures
        match r {
            Ok(points) => decode_all(line_views(hexes@), PointGroup::Secondary) == Ok::<
                Seq<Seq<u8>>,
                SetupError,
            >(secondary_views(points@)),
            Err(e) => decode_all(line_views(hexes@), PointGroup::Secondary) == Err::<
                Seq<Seq<u8>>,
                SetupError,
            >(e),
        },
{
    let ghost all = line_views(hexes@);
    let mut points: Vec<SecondaryPoint> = Vec::new();
    let mut i: usize = 0;
    assert(all.take(0) =~= Seq::<Seq<u8>>::empty());
    assert(secondary_views(points@) =~= Seq::<Seq<u8>>::empty());
    while i < hexes.len()
        invariant
            i <= hexes@.len(),
            all == line_views(hexes@),
            decode_all(all.take(i as int), PointGroup::Secondary) == Ok::<Seq<Seq<u8>>, SetupError>(
                secondary_views(points@),
            ),
        decreases hexes@.len() - i,
    {
        proof {
            assert(all.take(i + 1).drop_last() =~= all.take(i as int));
            assert(all.take(i + 1).last() == hexes@[i as int]@);
        }
        let ghost before = secondary_views(points@);
        match decode_secondary_point(hexes[i].as_slice()) {
            Ok(p) => {
                points.push(p);
                assert(secondary_views(points@) =~= before.push(p@));
            },
            Err(e) => {
                proof {
                    lemma_decode_all_prefix_fails(all, i + 1, PointGroup::Secondary);
                }
                return Err(e);
            },
        }
        i = i + 1;
    }
    assert(all.take(i as int) =~= all);
    Ok(points)
}

/// Where decoding a prefix of the lines fails, decoding all of them fails
/// with the same error.
pub proof fn lemma_decode_all_prefix_fails(hexes: Seq<Seq<u8>>, j: int, group: PointGroup)
    requires
        0 <= j <= hexes.len(),
        decode_all(hexes.take(j), group) is Err,
    ensures
        decode_all(hexes, group) == decode_all(hexes.take(j), group),
    decreases hexes.len(),
{
    if j == hexes.len() {
        assert(hexes.take(j) =~= hexes);
    } else {
        assert(hexes.drop_last().take(j) =~= hexes.take(j));
        lemma_decode_all_prefix_fails(hexes.drop_last(), j, group);
    }
}

/// Puts the parts of a bundle together.
pub fn assemble(
    max_width: usize,
    primary_points: Vec<PrimaryPoint>,
    secondary_points: Vec<SecondaryPoint>,
) -> (b: ParameterBundle)
    ensures
        b@ == (BundleModel {
            max_width: max_width as nat,
            primary: primary_views(primary_points@),
            secondary: secondary_views(secondary_points@),
        }),
{
    ParameterBundle { max_width, primary_points, secondary_points }
}

/// Sizes the domain, checks the form of the setup, reorders the primary
/// points and assembles the bundle, from the decoded points in file order.
/// Fails with `PermutationWidthMismatch` also where the width covers the
/// count but the count is not closed under bit reversal over it, as with
/// five, six or nine primary points; with `InvalidPointEncoding` where a
/// point that is to be paired lies outside the prime-order subgroup; and
/// with `LagrangeFormInvalid` on a setup in monomial form.
pub fn build_settings(primary: Vec<PrimaryPoint>, secondary: Vec<SecondaryPoint>) -> (r: Result<
    ParameterBundle,
    SetupError,
>)
    ensures
        match r {
            Ok(b) => ordered_setup(primary_views(primary@), secondary_views(secondary@)) == Ok::<
                BundleModel,
                SetupError,
            >(b@),
            Err(e) => ordered_setup(primary_views(primary@), secondary_views(secondary@)) == Err::<
                BundleModel,
                SetupError,
            >(e),
        },
{
    let n = primary.len();
    if n == 0 {
        return Err(SetupError::EmptyPointSet);
    }
    let width = match ceil_power_of_two(n) {
        Some((w, _)) => w,
        None => {
            return Err(SetupError::PermutationWidthMismatch);
        },
    };
    match check_lagrange_form(&primary, &secondary) {
        LagrangeCheck::OutsideSubgroup => {
            return Err(SetupError::InvalidPointEncoding);
        },
        LagrangeCheck::Monomial => {
            return Err(SetupError::LagrangeFormInvalid);
        },
        _ => {},
    }
    let reordered = bit_reversal_permutation(&primary, width)?;
    proof {
        assert(primary_views(reordered@) =~= bit_reversed(
            primary_views(primary@),
            log2_ceil(width as nat),
        ));
    }
    Ok(assemble(width, reordered, secondary))
}

/// Loads a trusted setup from its text: parses it, decodes and validates
/// every point, and builds the bundle. No bundle is given unless every stage
/// succeeds. A text whose lines are all valid is still refused where its
/// primary count is not closed under bit reversal over its domain width
/// (every power of two is closed; five, six and nine are not), where one of
/// the first two points of a group lies outside the prime-order subgroup,
/// and where the setup is in monomial form.
pub fn load_trusted_setup(text: &[u8]) -> (r: Result<ParameterBundle, SetupError>)
    ensures
        match r {
            Ok(b) => loaded_setup(text@) == Ok::<BundleModel, SetupError>(b@),
            Err(e) => loaded_setup(text@) == Err::<BundleModel, SetupError>(e),
        },
{
    let raw = parse_setup(text)?;
    let primary = decode_primary_points(&raw.primary_hex)?;
    let secondary = decode_secondary_points(&raw.secondary_hex)?;
    build_settings(primary, secondary)
}

} // verus!
