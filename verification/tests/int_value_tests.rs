use bare_script::error::ArithmeticError;
use bare_script::int_value::IntValue;

#[test]
fn addition_stays_at_the_operands_width_when_it_fits() {
    assert_eq!(IntValue::add_8(1, 2), IntValue::Int8(3));
    assert_eq!(IntValue::add_16(1, 2), IntValue::Int16(3));
    assert_eq!(IntValue::add_32(1, 2), IntValue::Int32(3));
    assert_eq!(IntValue::add_64(1, 2), Ok(IntValue::Int64(3)));
}

#[test]
fn addition_widens_on_overflow() {
    assert_eq!(IntValue::add_8(127, 1), IntValue::Int16(128));
    assert_eq!(IntValue::add_8(-128, -1), IntValue::Int16(-129));
    assert_eq!(IntValue::add_16(32767, 1), IntValue::Int32(32768));
    assert_eq!(IntValue::add_32(2147483647, 1), IntValue::Int64(2147483648));
    assert_eq!(IntValue::add_64(i64::MAX, 1), Err(ArithmeticError::Overflow));
    assert_eq!(IntValue::add_64(i64::MIN, -1), Err(ArithmeticError::Overflow));
}

#[test]
fn addition_is_carried_out_at_the_wider_tag() {
    assert_eq!(IntValue::Int8(1).add(IntValue::Int8(2)), Ok(IntValue::Int8(3)));
    assert_eq!(IntValue::Int8(1).add(IntValue::Int16(2)), Ok(IntValue::Int16(3)));
    assert_eq!(IntValue::Int32(1).add(IntValue::Int8(2)), Ok(IntValue::Int32(3)));
    assert_eq!(IntValue::Int64(1).add(IntValue::Int8(2)), Ok(IntValue::Int64(3)));
    assert_eq!(IntValue::Int8(127).add(IntValue::Int8(1)), Ok(IntValue::Int16(128)));
    assert_eq!(
        IntValue::Int64(i64::MAX).add(IntValue::Int8(1)),
        Err(ArithmeticError::Overflow)
    );
}

#[test]
fn subtraction_widens_on_overflow() {
    assert_eq!(IntValue::sub_8(-128, 1), IntValue::Int16(-129));
    assert_eq!(IntValue::sub_8(5, 7), IntValue::Int8(-2));
    assert_eq!(IntValue::sub_16(-32768, 1), IntValue::Int32(-32769));
    assert_eq!(IntValue::sub_32(-2147483648, 1), IntValue::Int64(-2147483649));
    assert_eq!(IntValue::sub_64(i64::MIN, 1), Err(ArithmeticError::Overflow));
    assert_eq!(IntValue::sub_64(10, 3), Ok(IntValue::Int64(7)));
    assert_eq!(IntValue::Int16(5).sub(IntValue::Int8(7)), Ok(IntValue::Int16(-2)));
    assert_eq!(IntValue::Int8(-128).sub(IntValue::Int8(1)), Ok(IntValue::Int16(-129)));
}

#[test]
fn multiplication_widens_on_overflow() {
    assert_eq!(IntValue::mul_8(16, 8), IntValue::Int16(128));
    assert_eq!(IntValue::mul_8(-128, -128), IntValue::Int16(16384));
    assert_eq!(IntValue::mul_8(3, 4), IntValue::Int8(12));
    assert_eq!(IntValue::mul_16(256, 256), IntValue::Int32(65536));
    assert_eq!(IntValue::mul_32(65536, 65536), IntValue::Int64(4294967296));
    assert_eq!(IntValue::mul_64(i64::MAX, 2), Err(ArithmeticError::Overflow));
    assert_eq!(IntValue::mul_64(-3, 5), Ok(IntValue::Int64(-15)));
    assert_eq!(IntValue::Int8(16).mul(IntValue::Int8(8)), Ok(IntValue::Int16(128)));
    assert_eq!(IntValue::Int32(2).mul(IntValue::Int8(3)), Ok(IntValue::Int32(6)));
}

#[test]
fn division_rounds_toward_zero() {
    assert_eq!(IntValue::div_8(7, 2), Ok(IntValue::Int8(3)));
    assert_eq!(IntValue::div_8(-7, 2), Ok(IntValue::Int8(-3)));
    assert_eq!(IntValue::div_8(7, -2), Ok(IntValue::Int8(-3)));
    assert_eq!(IntValue::div_8(-7, -2), Ok(IntValue::Int8(3)));
    assert_eq!(IntValue::div_16(-7, 2), Ok(IntValue::Int16(-3)));
    assert_eq!(IntValue::div_32(-7, 2), Ok(IntValue::Int32(-3)));
    assert_eq!(IntValue::div_64(-7, 2), Ok(IntValue::Int64(-3)));
    assert_eq!(IntValue::Int8(9).div(IntValue::Int16(2)), Ok(IntValue::Int16(4)));
}

#[test]
fn division_of_the_least_number_by_minus_one_widens() {
    assert_eq!(IntValue::div_8(-128, -1), Ok(IntValue::Int16(128)));
    assert_eq!(IntValue::div_16(-32768, -1), Ok(IntValue::Int32(32768)));
    assert_eq!(IntValue::div_32(-2147483648, -1), Ok(IntValue::Int64(2147483648)));
    assert_eq!(IntValue::div_64(i64::MIN, -1), Err(ArithmeticError::Overflow));
    assert_eq!(
        IntValue::Int8(-128).div(IntValue::Int8(-1)),
        Ok(IntValue::Int16(128))
    );
}

#[test]
fn division_by_zero_is_an_error_at_every_width() {
    assert_eq!(IntValue::div_8(1, 0), Err(ArithmeticError::DivisionByZero));
    assert_eq!(IntValue::div_16(1, 0), Err(ArithmeticError::DivisionByZero));
    assert_eq!(IntValue::div_32(1, 0), Err(ArithmeticError::DivisionByZero));
    assert_eq!(IntValue::div_64(1, 0), Err(ArithmeticError::DivisionByZero));
    assert_eq!(
        IntValue::Int8(0).div(IntValue::Int64(0)),
        Err(ArithmeticError::DivisionByZero)
    );
}

#[test]
fn comparisons_ignore_the_tags() {
    assert!(IntValue::Int8(5).eq(IntValue::Int64(5)));
    assert!(!IntValue::Int8(5).eq(IntValue::Int16(6)));
    assert!(IntValue::Int8(5).ne(IntValue::Int16(6)));
    assert!(!IntValue::Int32(5).ne(IntValue::Int8(5)));
    assert!(IntValue::Int8(-1).lt(IntValue::Int16(300)));
    assert!(!IntValue::Int16(300).lt(IntValue::Int8(-1)));
    assert!(IntValue::Int8(5).le(IntValue::Int32(5)));
    assert!(IntValue::Int64(1 << 40).gt(IntValue::Int8(127)));
    assert!(IntValue::Int16(7).ge(IntValue::Int16(7)));
    assert!(!IntValue::Int16(6).ge(IntValue::Int16(7)));
}

#[test]
fn conversions_cut_down_to_the_width_asked_for() {
    assert_eq!(IntValue::Int16(300).as_i8(), 44);
    assert_eq!(IntValue::Int16(-1).as_i8(), -1);
    assert_eq!(IntValue::Int32(65537).as_i16(), 1);
    assert_eq!(IntValue::Int64(4294967298).as_i32(), 2);
    assert_eq!(IntValue::Int8(-5).as_i16(), -5);
    assert_eq!(IntValue::Int8(-5).as_i32(), -5);
    assert_eq!(IntValue::Int8(-5).as_i64(), -5);
    assert_eq!(IntValue::Int64(i64::MIN).as_i64(), i64::MIN);
}

#[test]
fn sizes_are_one_two_four_and_eight_bytes() {
    assert_eq!(IntValue::Int8(0).get_byte_size(), 1);
    assert_eq!(IntValue::Int16(0).get_byte_size(), 2);
    assert_eq!(IntValue::Int32(0).get_byte_size(), 4);
    assert_eq!(IntValue::Int64(0).get_byte_size(), 8);
    assert_eq!(IntValue::Int8(0).use_size_of_biggest(&IntValue::Int32(0)), 4);
    assert_eq!(IntValue::Int64(0).use_size_of_biggest(&IntValue::Int32(0)), 8);
    assert_eq!(IntValue::Int16(0).use_size_of_biggest(&IntValue::Int16(0)), 2);
}

#[test]
fn the_result_tag_is_the_narrowest_at_least_as_wide_as_the_operands() {
    // 100 + 100 needs 16 bits, and both operands have 8.
    assert_eq!(IntValue::Int8(100).add(IntValue::Int8(100)), Ok(IntValue::Int16(200)));
    // 1 + 1 needs 8 bits, but an operand has 32.
    assert_eq!(IntValue::Int32(1).add(IntValue::Int8(1)), Ok(IntValue::Int32(2)));
    // 30000 * 30000 needs 32 bits.
    assert_eq!(
        IntValue::Int16(30000).mul(IntValue::Int16(30000)),
        Ok(IntValue::Int32(900000000))
    );
}
