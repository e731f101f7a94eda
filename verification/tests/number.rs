use dyadikos::math::{Scalar, Transform};
use dyadikos::number::{check_number, int_string, parse_int};
use dyadikos::primitive::Model;

#[test]
fn plain_numbers_are_accepted() {
    let good = [
        "0", "-0", "7", "10", "-10", "1234567890", "0.0", "0.5", "-0.5", "1.0", "12.340",
        "1e+0", "1e-7", "-3.25e+12", "0e+0", "0.0e-0", "123456789012345678901234567890",
    ];
    for text in good {
        assert!(check_number(text), "{}", text);
        assert_eq!(Scalar::new(text).unwrap().as_str(), text);
    }
}

#[test]
fn other_texts_are_not_numbers() {
    let bad = [
        "", "-", "+1", "01", "-01", "00", ".5", "5.", "1.e+1", "1e5", "1E+5", "1e", "1e+", "1e+-1",
        "1.5.5", " 1", "1 ", "1,0", "0x10", "NaN", "inf", "null", "1e+5x", "--1", "１", "1\u{e9}",
    ];
    for text in bad {
        assert!(!check_number(text), "{}", text);
        assert!(Scalar::new(text).is_none(), "{}", text);
    }
}

#[test]
fn integers_are_written_in_base_ten() {
    assert_eq!(int_string(0), "0");
    assert_eq!(int_string(7), "7");
    assert_eq!(int_string(10), "10");
    assert_eq!(int_string(-1), "-1");
    assert_eq!(int_string(305), "305");
    assert_eq!(int_string(32767), "32767");
    assert_eq!(int_string(-32768), "-32768");
}

#[test]
fn integers_are_read_from_base_ten() {
    assert_eq!(parse_int("0"), Some(0));
    assert_eq!(parse_int("9"), Some(9));
    assert_eq!(parse_int("-9"), Some(-9));
    assert_eq!(parse_int("1200"), Some(1200));
    assert_eq!(parse_int("32767"), Some(32767));
    assert_eq!(parse_int("-32768"), Some(-32768));
}

#[test]
fn integers_out_of_range_or_ill_written_are_not_read() {
    let bad = [
        "", "-", "32768", "-32769", "65536", "100000", "4294967296", "99999999999999999999",
        "-0", "00", "007", "+7", "7.0", "7e+0", " 7", "7 ", "0x7", "seven", "٣",
    ];
    for text in bad {
        assert_eq!(parse_int(text), None, "{}", text);
    }
}

#[test]
fn every_integer_reads_back() {
    let mut i = i16::MIN;
    loop {
        assert_eq!(parse_int(&int_string(i)), Some(i));
        assert!(check_number(&int_string(i)));
        if i == i16::MAX {
            break;
        }
        i += 1;
    }
}

#[test]
fn constants_have_their_texts() {
    assert_eq!(Scalar::zero().as_str(), "0.0");
    assert_eq!(Scalar::one().as_str(), "1.0");
    assert_eq!(Scalar::half().as_str(), "0.5");
    assert_eq!(Scalar::minus_half().as_str(), "-0.5");
    assert_eq!(Scalar::one().clone(), Scalar::one());
}

#[test]
fn default_transform_is_the_identity() {
    let t = Transform::default();
    let texts = |s: &[Scalar]| s.iter().map(|x| x.as_str().to_string()).collect::<Vec<_>>();
    assert_eq!(texts(&t.position), ["0.0", "0.0", "0.0"]);
    assert_eq!(texts(&t.rotation), ["0.0", "0.0", "0.0", "1.0"]);
    assert_eq!(texts(&t.scale), ["1.0", "1.0", "1.0"]);
}

#[test]
fn quad_is_the_unit_square() {
    let quad = Model::quad(Some("brick.png".to_string()));
    assert_eq!(quad.texture.as_deref(), Some("brick.png"));
    assert_eq!(quad.indices, vec![0, 1, 2, 0, 2, 3]);
    let corners: Vec<Vec<&str>> = quad
        .vertices
        .iter()
        .map(|v| v.pos.iter().chain(v.uv.iter()).map(|s| s.as_str()).collect())
        .collect();
    assert_eq!(
        corners,
        vec![
            vec!["-0.5", "-0.5", "0.0", "0.0", "0.0"],
            vec!["0.5", "-0.5", "0.0", "1.0", "0.0"],
            vec!["0.5", "0.5", "0.0", "1.0", "1.0"],
            vec!["-0.5", "0.5", "0.0", "0.0", "1.0"],
        ]
    );
    assert_eq!(Model::quad(None).texture, None);
}
