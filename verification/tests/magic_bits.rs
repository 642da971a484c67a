use cf::magic_bits::BinaryOperator;

#[test]
fn operator_tokens() {
    assert_eq!(BinaryOperator::Addition.get_operator(), "+");
    assert_eq!(BinaryOperator::LogicalAnd.get_operator(), "&&");
    assert_eq!(BinaryOperator::UnsignedRightShift.get_operator(), ">>>");
    assert_eq!(BinaryOperator::EqualsStrict.get_operator(), "===");
    assert_eq!(BinaryOperator::InstanceOf.get_operator(), "instanceof");
}

#[test]
fn operator_tokens_are_distinct() {
    let all = [
        BinaryOperator::Addition,
        BinaryOperator::Subtraction,
        BinaryOperator::Multiplication,
        BinaryOperator::Division,
        BinaryOperator::Modulo,
        BinaryOperator::LogicalAnd,
        BinaryOperator::LogicalOr,
        BinaryOperator::BitwiseAnd,
        BinaryOperator::BitwiseOr,
        BinaryOperator::BitwiseXOR,
        BinaryOperator::LeftShift,
        BinaryOperator::RightShift,
        BinaryOperator::UnsignedRightShift,
        BinaryOperator::Equals,
        BinaryOperator::EqualsStrict,
        BinaryOperator::GreaterThan,
        BinaryOperator::GreaterThanOrEqual,
        BinaryOperator::InstanceOf,
    ];
    for a in all.iter() {
        for b in all.iter() {
            assert_eq!(a == b, a.get_operator() == b.get_operator());
        }
    }
}
