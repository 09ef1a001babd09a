use nios2asm::utils::{
    convert_int_to_binary, convert_int_to_decimal, convert_string_to_hex, convert_string_to_int,
    get_address_difference,
};

#[test]
fn integers_are_read_in_decimal_and_hexadecimal() {
    assert_eq!(convert_string_to_int("10"), Some(10));
    assert_eq!(convert_string_to_int("-20"), Some(-20));
    assert_eq!(convert_string_to_int("0"), Some(0));
    assert_eq!(convert_string_to_int("007"), Some(7));
    assert_eq!(convert_string_to_int("0x200"), Some(0x200));
    assert_eq!(convert_string_to_int("0xfF"), Some(255));
    assert_eq!(convert_string_to_int("-0x10"), Some(-16));
    assert_eq!(convert_string_to_int("-0"), Some(0));
}

#[test]
fn integers_stop_at_the_limits_of_the_machine_word() {
    assert_eq!(convert_string_to_int("2147483647"), Some(i32::MAX));
    assert_eq!(convert_string_to_int("2147483648"), None);
    assert_eq!(convert_string_to_int("-2147483648"), Some(i32::MIN));
    assert_eq!(convert_string_to_int("-2147483649"), None);
    assert_eq!(convert_string_to_int("0x7fffffff"), Some(i32::MAX));
    assert_eq!(convert_string_to_int("0x80000000"), None);
    assert_eq!(convert_string_to_int("-0x80000000"), Some(i32::MIN));
    assert_eq!(convert_string_to_int("99999999999999999999999999"), None);
}

#[test]
fn malformed_integers_are_refused() {
    for text in [
        "", "-", "0x", "-0x", "12a", "a12", " 1", "1 ", "+1", "--1", "0X10", "1-", "ff", "٣",
    ] {
        assert_eq!(convert_string_to_int(text), None, "{:?}", text);
    }
}

#[test]
fn binary_text_is_twos_complement_of_the_given_width() {
    assert_eq!(convert_int_to_binary(5, 5), "00101");
    assert_eq!(convert_int_to_binary(28, 5), "11100");
    assert_eq!(convert_int_to_binary(0x3a, 6), "111010");
    assert_eq!(convert_int_to_binary(-8, 16), "1111111111111000");
    assert_eq!(convert_int_to_binary(-1, 16), "1111111111111111");
    assert_eq!(convert_int_to_binary(0, 0), "");
    assert_eq!(convert_int_to_binary(7, 0), "");
    assert_eq!(convert_int_to_binary(4, 26), "00000000000000000000000100");
}

#[test]
fn binary_text_keeps_only_the_low_bits() {
    assert_eq!(convert_int_to_binary(32, 5), "00000");
    assert_eq!(convert_int_to_binary(33, 5), "00001");
    assert_eq!(convert_int_to_binary(0x12345, 16), "0010001101000101");
    assert_eq!(convert_int_to_binary(-1, 5), "11111");
}

#[test]
fn binary_text_extends_the_sign_beyond_the_word() {
    assert_eq!(convert_int_to_binary(-1, 40), "1".repeat(40));
    assert_eq!(convert_int_to_binary(1, 40), format!("{}1", "0".repeat(39)));
    assert_eq!(
        convert_int_to_binary(i32::MIN, 33),
        format!("11{}", "0".repeat(31))
    );
    assert_eq!(
        convert_int_to_binary(i32::MAX, 32),
        format!("0{}", "1".repeat(31))
    );
}

#[test]
fn hexadecimal_text_takes_four_bits_to_a_digit() {
    assert_eq!(convert_string_to_hex(""), "");
    assert_eq!(convert_string_to_hex("1010"), "a");
    assert_eq!(convert_string_to_hex("11111"), "1f");
    assert_eq!(convert_string_to_hex("1"), "1");
    assert_eq!(convert_string_to_hex("00000000"), "00");
    assert_eq!(
        convert_string_to_hex("00000111000000001000000000000100"),
        "07008004"
    );
    assert_eq!(
        convert_string_to_hex("11111111111111111111111111101100"),
        "ffffffec"
    );
}

#[test]
fn hexadecimal_text_reads_other_characters_as_zero_bits() {
    assert_eq!(convert_string_to_hex("1x1x"), "a");
    assert_eq!(convert_string_to_hex("2222"), "0");
}

#[test]
fn decimal_text_of_signed_values() {
    assert_eq!(convert_int_to_decimal(0), "0");
    assert_eq!(convert_int_to_decimal(7), "7");
    assert_eq!(convert_int_to_decimal(238), "238");
    assert_eq!(convert_int_to_decimal(-18), "-18");
    assert_eq!(convert_int_to_decimal(1000), "1000");
    assert_eq!(convert_int_to_decimal(i64::MAX), i64::MAX.to_string());
    assert_eq!(convert_int_to_decimal(i64::MIN), i64::MIN.to_string());
}

#[test]
fn address_difference_is_distance_less_one() {
    assert_eq!(get_address_difference(6, 9), Some(2));
    assert_eq!(get_address_difference(17, 17), Some(-1));
    assert_eq!(get_address_difference(8, 13), Some(4));
    assert_eq!(get_address_difference(0, 0), Some(-1));
    assert_eq!(get_address_difference(10, 0), Some(-11));
}

#[test]
fn address_difference_beyond_the_machine_word_is_none() {
    assert_eq!(get_address_difference(-1, i32::MAX), Some(i32::MAX));
    assert_eq!(get_address_difference(-2, i32::MAX), None);
    assert_eq!(get_address_difference(0, i32::MIN + 1), Some(i32::MIN));
    assert_eq!(get_address_difference(0, i32::MIN), None);
    assert_eq!(get_address_difference(i32::MAX, i32::MIN), None);
    assert_eq!(get_address_difference(i32::MIN, i32::MAX), None);
}

#[test]
fn branch_offset_survives_sixteen_bits() {
    for (current, target) in [
        (6, 9),
        (17, 17),
        (100, 0),
        (0, 0x7fff),
        (0x8000, 1),
        (0x7fff, 0),
    ] {
        let offset = get_address_difference(current, target).unwrap();
        assert!((-0x8000..0x8000).contains(&offset));
        let bits = convert_int_to_binary(offset, 16);
        let field = i64::from_str_radix(&bits, 2).unwrap();
        let decoded = if field >= 0x8000 {
            field - 0x10000
        } else {
            field
        };
        assert_eq!(current as i64 + decoded + 1, target as i64);
    }
}
