use trusted_setup::bundle::{
    assemble, build_settings, decode_primary_points, decode_secondary_points, load_trusted_setup,
};
use trusted_setup::error::SetupError;
use trusted_setup::point::{decode_primary_point, decode_secondary_point};

const PRIMARY_A: &str = "97f1d3a73197d7942695638c4fa9ac0fc3688c4f9774b905a14e3a3f171bac586c55e83ff97a1aeffb3af00adb22c6bb";
const PRIMARY_B: &str = "89ece308f9d1f0131765212deca99697b112d61f9be9a5f1f3780a51335b3ff981747a0b2ca2179b96d2c0c9024e5224";
const PRIMARY_C: &str = "a572cbea904d67468808c8eb50a9450c9721db309128012543902d0ac358a62ae28f75bb8f1c7c42c39a8c5529bf0f4e";
const PRIMARY_D: &str = "b0e7791fb972fe014159aa33a98622da3cdc98ff707965e536d8636b5fcc5ac7a91a8c46e59a00dca575af0f18fb13dc";
const PRIMARY_E: &str = "ac9b60d5afcbd5663a8a44b7c5a02f19e9a77ab0a35bd65809bb5c67ec582c897feb04decc694b13e08587f3ff9b5b60";
const SECONDARY_A: &str = "93e02b6052719f607dacd3a088274f65596bd0d09920b61ab5da61bbdc7f5049334cf11213945d57e5ac7d055d042b7e024aa2b2f08f0a91260805272dc51051c6e47ad4fa403b02b4510b647ae3d1770bac0326a805bbefd48056c8c121bdb8";
const SECONDARY_B: &str = "aa4edef9c1ed7f729f520e47730a124fd70662a904ba1074728114d1031e1572c6c886f6b57ec72a6178288c47c335771638533957d540a9d2370f17cc7ed5863bc0b995b8825e0ee1ea1e1e4d00dbae81f14b0bf3611b78c952aacab827a053";

fn setup_text(primary: &[&str], secondary: &[&str]) -> Vec<u8> {
    let mut text = format!("{}\n{}\n", primary.len(), secondary.len());
    for line in primary.iter().chain(secondary.iter()) {
        text.push_str(line);
        text.push('\n');
    }
    text.into_bytes()
}

fn bytes_of(hex_str: &str) -> Vec<u8> {
    hex::decode(hex_str).unwrap()
}

#[test]
fn four_primary_points_are_bit_reversed() {
    let text = setup_text(&[PRIMARY_A, PRIMARY_B, PRIMARY_C, PRIMARY_D], &[SECONDARY_A]);
    let bundle = load_trusted_setup(&text).unwrap();
    assert_eq!(bundle.max_width(), 4);
    let primary: Vec<Vec<u8>> =
        bundle.primary_points().iter().map(|p| p.encoded().to_vec()).collect();
    assert_eq!(primary, vec![bytes_of(PRIMARY_A), bytes_of(PRIMARY_C), bytes_of(PRIMARY_B), bytes_of(PRIMARY_D)]);
    let secondary: Vec<Vec<u8>> =
        bundle.secondary_points().iter().map(|p| p.encoded().to_vec()).collect();
    assert_eq!(secondary, vec![bytes_of(SECONDARY_A)]);
}

#[test]
fn bundle_has_the_declared_counts() {
    let text = setup_text(&[PRIMARY_A, PRIMARY_B, PRIMARY_C, PRIMARY_D, PRIMARY_E, PRIMARY_A, PRIMARY_B, PRIMARY_C], &[SECONDARY_A, SECONDARY_B, SECONDARY_A]);
    let bundle = load_trusted_setup(&text).unwrap();
    assert_eq!(bundle.primary_points().len(), 8);
    assert_eq!(bundle.secondary_points().len(), 3);
    assert_eq!(bundle.max_width(), 8);
    let primary: Vec<Vec<u8>> =
        bundle.primary_points().iter().map(|p| p.encoded().to_vec()).collect();
    let expected: Vec<Vec<u8>> =
        [PRIMARY_A, PRIMARY_E, PRIMARY_C, PRIMARY_B, PRIMARY_B, PRIMARY_A, PRIMARY_D, PRIMARY_C].iter().map(|h| bytes_of(h)).collect();
    assert_eq!(primary, expected);
    let secondary: Vec<Vec<u8>> =
        bundle.secondary_points().iter().map(|p| p.encoded().to_vec()).collect();
    assert_eq!(secondary, vec![bytes_of(SECONDARY_A), bytes_of(SECONDARY_B), bytes_of(SECONDARY_A)]);
}

#[test]
fn one_primary_point_has_width_one() {
    let text = setup_text(&[PRIMARY_D], &[]);
    let bundle = load_trusted_setup(&text).unwrap();
    assert_eq!(bundle.max_width(), 1);
    assert_eq!(bundle.primary_points()[0].encoded().to_vec(), bytes_of(PRIMARY_D));
    assert!(bundle.secondary_points().is_empty());
}

#[test]
fn prefixed_lines_and_crlf_load() {
    let text = format!("2\r\n1\r\n0x{}\r\n0x{}\r\n0x{}\r\n", PRIMARY_A, PRIMARY_B, SECONDARY_A);
    let bundle = load_trusted_setup(text.as_bytes()).unwrap();
    assert_eq!(bundle.max_width(), 2);
    assert_eq!(bundle.primary_points()[1].encoded().to_vec(), bytes_of(PRIMARY_B));
}

#[test]
fn load_refuses_a_malformed_header() {
    let text = format!("abc\n2\n{}\n", PRIMARY_A);
    assert_eq!(load_trusted_setup(text.as_bytes()).err(), Some(SetupError::MalformedHeader));
}

#[test]
fn load_refuses_three_lines_for_four_declared() {
    let text = format!("4\n0\n{}\n{}\n{}\n", PRIMARY_A, PRIMARY_B, PRIMARY_C);
    assert_eq!(load_trusted_setup(text.as_bytes()).err(), Some(SetupError::TruncatedFile));
}

#[test]
fn load_refuses_a_short_primary_line() {
    let text = setup_text(&[PRIMARY_A, &PRIMARY_B[..94]], &[SECONDARY_A]);
    assert_eq!(load_trusted_setup(&text).err(), Some(SetupError::ByteLengthMismatch));
}

#[test]
fn load_refuses_bad_hex() {
    let bad = PRIMARY_B.replace('a', "g");
    let text = setup_text(&[PRIMARY_A, &bad], &[SECONDARY_A]);
    assert_eq!(load_trusted_setup(&text).err(), Some(SetupError::InvalidHexEncoding));
}

#[test]
fn load_refuses_bytes_that_are_no_point() {
    let zeros = "00".repeat(96);
    let text = setup_text(&[PRIMARY_A, PRIMARY_B], &[&zeros]);
    assert_eq!(load_trusted_setup(&text).err(), Some(SetupError::InvalidPointEncoding));
}

#[test]
fn load_reports_the_first_failing_line() {
    let zeros = "00".repeat(48);
    let text = setup_text(&[PRIMARY_A, &zeros, "zz"], &["0"]);
    assert_eq!(load_trusted_setup(&text).err(), Some(SetupError::InvalidPointEncoding));
    let text = setup_text(&[PRIMARY_A, "zz", &zeros], &["0"]);
    assert_eq!(load_trusted_setup(&text).err(), Some(SetupError::InvalidHexEncoding));
}

#[test]
fn load_refuses_a_setup_without_primary_points() {
    let text = setup_text(&[], &[SECONDARY_A]);
    assert_eq!(load_trusted_setup(&text).err(), Some(SetupError::EmptyPointSet));
    assert_eq!(load_trusted_setup(b"0\n0\n").err(), Some(SetupError::EmptyPointSet));
}

#[test]
fn load_refuses_monomial_form() {
    let text = setup_text(&[PRIMARY_A, PRIMARY_C], &[SECONDARY_A, SECONDARY_B]);
    assert_eq!(load_trusted_setup(&text).err(), Some(SetupError::LagrangeFormInvalid));
}

#[test]
fn load_takes_lagrange_form_with_two_secondary_points() {
    let text = setup_text(&[PRIMARY_A, PRIMARY_B, PRIMARY_C, PRIMARY_D], &[SECONDARY_A, SECONDARY_B]);
    let bundle = load_trusted_setup(&text).unwrap();
    assert_eq!(bundle.max_width(), 4);
    assert_eq!(bundle.primary_points()[1].encoded().to_vec(), bytes_of(PRIMARY_C));
}

#[test]
fn load_refuses_a_count_that_bit_reversal_does_not_close() {
    let text = setup_text(&[PRIMARY_A, PRIMARY_B, PRIMARY_C, PRIMARY_D, PRIMARY_E], &[SECONDARY_A]);
    assert_eq!(load_trusted_setup(&text).err(), Some(SetupError::PermutationWidthMismatch));
}

#[test]
fn decoding_many_stops_at_the_first_error() {
    let lines = vec![PRIMARY_A.as_bytes().to_vec(), b"zz".to_vec(), b"0".to_vec()];
    assert_eq!(decode_primary_points(&lines).err(), Some(SetupError::InvalidHexEncoding));
    let lines = vec![SECONDARY_A.as_bytes().to_vec(), SECONDARY_B.as_bytes().to_vec()];
    let points = decode_secondary_points(&lines).unwrap();
    assert_eq!(points.len(), 2);
    assert_eq!(points[1].encoded().to_vec(), bytes_of(SECONDARY_B));
}

#[test]
fn build_settings_orders_decoded_points() {
    let primary = vec![
        decode_primary_point(PRIMARY_A.as_bytes()).unwrap(),
        decode_primary_point(PRIMARY_B.as_bytes()).unwrap(),
    ];
    let secondary = vec![decode_secondary_point(SECONDARY_B.as_bytes()).unwrap()];
    let bundle = build_settings(primary, secondary).unwrap();
    assert_eq!(bundle.max_width(), 2);
    assert_eq!(bundle.primary_points()[0].encoded().to_vec(), bytes_of(PRIMARY_A));
    assert_eq!(bundle.primary_points()[1].encoded().to_vec(), bytes_of(PRIMARY_B));
    assert_eq!(bundle.secondary_points()[0].encoded().to_vec(), bytes_of(SECONDARY_B));
    assert_eq!(build_settings(vec![], vec![]).err(), Some(SetupError::EmptyPointSet));
}

#[test]
fn assemble_keeps_its_parts() {
    let primary = vec![decode_primary_point(PRIMARY_C.as_bytes()).unwrap()];
    let secondary = vec![decode_secondary_point(SECONDARY_A.as_bytes()).unwrap()];
    let bundle = assemble(1, primary, secondary);
    assert_eq!(bundle.max_width(), 1);
    assert_eq!(bundle.primary_points()[0].encoded().to_vec(), bytes_of(PRIMARY_C));
    assert_eq!(bundle.secondary_points()[0].encoded().to_vec(), bytes_of(SECONDARY_A));
}

fn secondary_outside_subgroup() -> String {
    let mut bytes = [0u8; 96];
    bytes[0] = 0x80;
    let mut low: u8 = 0;
    loop {
        bytes[95] = low;
        let on_curve = bool::from(bls12_381::G2Affine::from_compressed_unchecked(&bytes).is_some());
        let in_subgroup = bool::from(bls12_381::G2Affine::from_compressed(&bytes).is_some());
        if on_curve && !in_subgroup {
            return hex::encode(bytes);
        }
        assert!(low < 255, "no point outside the subgroup was found");
        low += 1;
    }
}

#[test]
fn load_refuses_a_paired_point_outside_the_subgroup() {
    let stray = secondary_outside_subgroup();
    let text = setup_text(&[PRIMARY_A, PRIMARY_B], &[&stray, SECONDARY_B]);
    assert_eq!(load_trusted_setup(&text).err(), Some(SetupError::InvalidPointEncoding));
    let text = setup_text(&[PRIMARY_A, PRIMARY_B], &[SECONDARY_A, &stray]);
    assert_eq!(load_trusted_setup(&text).err(), Some(SetupError::InvalidPointEncoding));
}

#[test]
fn load_takes_an_unpaired_point_outside_the_subgroup() {
    let stray = secondary_outside_subgroup();
    let text = setup_text(&[PRIMARY_A, PRIMARY_B], &[&stray]);
    let bundle = load_trusted_setup(&text).unwrap();
    assert_eq!(bundle.secondary_points()[0].encoded().to_vec(), bytes_of(&stray));
}

#[test]
fn load_refuses_six_and_nine_primary_points() {
    let six = [PRIMARY_A, PRIMARY_B, PRIMARY_C, PRIMARY_D, PRIMARY_E, PRIMARY_A];
    let text = setup_text(&six, &[SECONDARY_A]);
    assert_eq!(load_trusted_setup(&text).err(), Some(SetupError::PermutationWidthMismatch));
    let nine = [
        PRIMARY_A, PRIMARY_B, PRIMARY_C, PRIMARY_D, PRIMARY_E, PRIMARY_A, PRIMARY_B, PRIMARY_C,
        PRIMARY_D,
    ];
    let text = setup_text(&nine, &[SECONDARY_A]);
    assert_eq!(load_trusted_setup(&text).err(), Some(SetupError::PermutationWidthMismatch));
}

#[test]
fn load_takes_three_primary_points_over_width_four() {
    let text = setup_text(&[PRIMARY_A, PRIMARY_B, PRIMARY_C], &[SECONDARY_A]);
    let bundle = load_trusted_setup(&text).unwrap();
    assert_eq!(bundle.max_width(), 4);
    let primary: Vec<Vec<u8>> =
        bundle.primary_points().iter().map(|p| p.encoded().to_vec()).collect();
    assert_eq!(primary, vec![bytes_of(PRIMARY_A), bytes_of(PRIMARY_C), bytes_of(PRIMARY_B)]);
}
