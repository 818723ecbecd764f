use shr::utils::{
    decimal, get_number_format, get_type_of_thousand, human_readable_number, HrForm,
};

#[test]
fn the_thousand_depends_on_the_mode() {
    assert_eq!(get_type_of_thousand(""), 1024);
    assert_eq!(get_type_of_thousand("si"), 1000);
    assert_eq!(get_type_of_thousand("bi"), 1024);
    assert_eq!(get_type_of_thousand("ki"), 1024);
    assert_eq!(get_type_of_thousand("sii"), 1024);
    assert_eq!(get_type_of_thousand("k"), 1024);
    assert_eq!(get_type_of_thousand("b"), 1024);
    assert_eq!(get_type_of_thousand("s"), 1024);
    assert_eq!(get_type_of_thousand("kb"), 1000);
    assert_eq!(get_type_of_thousand("mb"), 1000);
    assert_eq!(get_type_of_thousand("SI"), 1000);
    // One character of two bytes is not a mode of one byte.
    assert_eq!(get_type_of_thousand("é"), 1000);
    assert_eq!(get_type_of_thousand("\u{7f}"), 1024);
    assert_eq!(get_type_of_thousand("\u{80}"), 1000);
}

#[test]
fn a_mode_that_names_a_unit_fixes_it() {
    assert_eq!(get_number_format("b"), Some((1, 'B')));
    assert_eq!(get_number_format("bi"), Some((1, 'B')));
    assert_eq!(get_number_format("k"), Some((1024, 'K')));
    assert_eq!(get_number_format("kb"), Some((1000, 'K')));
    assert_eq!(get_number_format("ki"), Some((1024, 'K')));
    assert_eq!(get_number_format("m"), Some((1024 * 1024, 'M')));
    assert_eq!(get_number_format("mb"), Some((1_000_000, 'M')));
    assert_eq!(get_number_format("g"), Some((1 << 30, 'G')));
    assert_eq!(get_number_format("gb"), Some((1_000_000_000, 'G')));
    assert_eq!(get_number_format("t"), Some((1 << 40, 'T')));
    assert_eq!(get_number_format("tb"), Some((1_000_000_000_000, 'T')));
    assert_eq!(get_number_format("p"), Some((1 << 50, 'P')));
    assert_eq!(get_number_format("pb"), Some((1_000_000_000_000_000, 'P')));
    assert_eq!(get_number_format("pib"), Some((1 << 50, 'P')));
    assert_eq!(get_number_format(""), None);
    assert_eq!(get_number_format("si"), None);
    assert_eq!(get_number_format("K"), None);
    assert_eq!(get_number_format("x"), None);
    assert_eq!(get_number_format("ab"), None);
}

fn form(size: u64, mode: &str) -> HrForm {
    human_readable_number(size, mode).form()
}

#[test]
fn a_number_is_written_in_the_largest_unit_that_fits() {
    assert_eq!(form(0, "si"), HrForm::Whole { value: 0, unit: 'B' });
    assert_eq!(form(999, "si"), HrForm::Whole { value: 999, unit: 'B' });
    assert_eq!(form(1000, "si"), HrForm::Tenths { size: 1000, marker: 1000, unit: 'K' });
    assert_eq!(form(1500, "si"), HrForm::Tenths { size: 1500, marker: 1000, unit: 'K' });
    assert_eq!(form(9999, "si"), HrForm::Tenths { size: 9999, marker: 1000, unit: 'K' });
    assert_eq!(form(10_000, "si"), HrForm::Whole { value: 10, unit: 'K' });
    assert_eq!(form(999_999, "si"), HrForm::Whole { value: 999, unit: 'K' });
    assert_eq!(
        form(1_000_000, "si"),
        HrForm::Tenths { size: 1_000_000, marker: 1_000_000, unit: 'M' }
    );
    assert_eq!(form(25_000_000, "si"), HrForm::Whole { value: 25, unit: 'M' });
    assert_eq!(form(3_000_000_000_000, "si"), HrForm::Tenths {
        size: 3_000_000_000_000,
        marker: 1_000_000_000_000,
        unit: 'T'
    });
    assert_eq!(form(u64::MAX, "si"), HrForm::Whole { value: 18446, unit: 'P' });
    assert_eq!(form(u64::MAX, ""), HrForm::Whole { value: 16383, unit: 'P' });
    assert_eq!(form(1023, ""), HrForm::Whole { value: 1023, unit: 'B' });
    assert_eq!(form(1024, ""), HrForm::Tenths { size: 1024, marker: 1024, unit: 'K' });
    assert_eq!(form(1000, "xi"), HrForm::Whole { value: 1000, unit: 'B' });
    assert_eq!(form(10 * 1024, "xi"), HrForm::Whole { value: 10, unit: 'K' });
    assert_eq!(form(1 << 30, ""), HrForm::Tenths { size: 1 << 30, marker: 1 << 30, unit: 'G' });
}

#[test]
fn a_fixed_unit_divides_down_to_a_whole_number() {
    assert_eq!(form(123_456, "b"), HrForm::Whole { value: 123_456, unit: 'B' });
    assert_eq!(form(123_456, "kb"), HrForm::Whole { value: 123, unit: 'K' });
    assert_eq!(form(123_456, "k"), HrForm::Whole { value: 120, unit: 'K' });
    assert_eq!(form(123_456, "mb"), HrForm::Whole { value: 0, unit: 'M' });
    assert_eq!(form(5_000_000_000, "g"), HrForm::Whole { value: 4, unit: 'G' });
    assert_eq!(form(u64::MAX, "p"), HrForm::Whole { value: 16383, unit: 'P' });
}

#[test]
fn decimal_writes_the_digits() {
    assert_eq!(decimal(0), "0");
    assert_eq!(decimal(7), "7");
    assert_eq!(decimal(10), "10");
    assert_eq!(decimal(1234567890), "1234567890");
    assert_eq!(decimal(u64::MAX), "18446744073709551615");
    for n in [9u64, 99, 100, 101, 4096, 1_000_000_007] {
        assert_eq!(decimal(n), n.to_string());
    }
}

#[test]
fn a_whole_form_has_a_text_and_a_form_with_a_decimal_place_has_none() {
    assert_eq!(form(0, "si").text(), Some(String::from("0B")));
    assert_eq!(form(999, "si").text(), Some(String::from("999B")));
    assert_eq!(form(25_000_000, "si").text(), Some(String::from("25M")));
    assert_eq!(form(123_456, "kb").text(), Some(String::from("123K")));
    assert_eq!(form(u64::MAX, "b").text(), Some(String::from("18446744073709551615B")));
    assert_eq!(form(1500, "si").text(), None);
    let tenths = form(1500, "si");
    if let HrForm::Tenths { size, marker, unit } = tenths {
        assert_eq!(format!("{:.1}{}", size as f32 / marker as f32, unit), "1.5K");
    } else {
        panic!("1500 bytes are less than ten of a unit");
    }
}
