use oxideav_pdf::destination::format_array_dest;
use oxideav_pdf::number::Number;
use oxideav_pdf::objects::{Object, Real};

fn written(digits: &str) -> Real {
    Real::new(digits.as_bytes())
}

#[test]
fn reals_print_without_idle_zeros() {
    for digits in [
        "1.50", "-0.0", "+1.5", ".5", "5.", "-.25", "007.20", "0.0", "100.0", "12345.678900",
        "-3.0", "0.001", "123456789.125", "1000000.0",
    ] {
        let wanted = format!("{}", digits.parse::<f64>().unwrap());
        assert_eq!(written(digits).to_text(), wanted, "{digits}");
    }
    let items = vec![Object::Real(written("1.50")), Object::Null, Object::Integer(-2)];
    assert_eq!(format_array_dest(&items), "[1.5 null -2]");
}

#[test]
fn reals_are_zero_or_infinite_as_in_single_precision() {
    for digits in [
        "0.0",
        "-0.000",
        "0.1",
        "-0.5",
        "7.0",
        "100.0",
        "0.00000000000000000000000000000000000000000000007",
        "0.0000000000000000000000000000000000000000000007",
        "0.0000000000000000000000000000000000000000000007006492321624085",
        "0.0000000000000000000000000000000000000000000007006492321624086",
        "0.000000000000000000000000000000000000000000000800",
        "-0.000000000000000000000000000000000000000000001",
        "0.00000000000000000000000000000000000000000000070064923216240861324955576490922940494093164318981089325668625095948470510688798561455451962335380581493528907142021196208236943903102655895054340362548828124",
        "0.00000000000000000000000000000000000000000000070064923216240861324955576490922940494093164318981089325668625095948470510688798561455451962335380581493528907142021196208236943903102655895054340362548828125",
        "0.00000000000000000000000000000000000000000000070064923216240861324955576490922940494093164318981089325668625095948470510688798561455451962335380581493528907142021196208236943903102655895054340362548828126",
        "340282346638528859811704183484516925440.0",
        "340282356779733642748073463979561713663.9",
        "340282356779733642748073463979561713664.0",
        "-340282356779733642748073463979561713664.5",
        "000340282356779733642748073463979561713664.0",
        "1000000000000000000000000000000000000000.0",
        "99999999999999999999999999999999999999999999999999999999999999999999999.5",
    ] {
        let v = digits.parse::<f64>().unwrap() as f32;
        assert_eq!(written(digits).vanishes(), v == 0.0, "{digits}");
        assert_eq!(written(digits).overflows(), v.is_infinite(), "{digits}");
        assert_eq!(Number::Real(written(digits)).is_zero(), v == 0.0, "{digits}");
        assert_eq!(Number::Real(written(digits)).is_finite(), v.is_finite(), "{digits}");
    }
    assert!(Number::Integer(0).is_zero());
    assert!(Number::Integer(i64::MIN).is_finite());
}
