use vstd::prelude::*;

verus! {

/// The binary operators that the challenge runtime encodes.
#[derive(Debug, Clone, Copy, PartialEq, Eq, Structural)]
pub enum BinaryOperator {
    Addition,
    Subtraction,
    Multiplication,
    Division,
    Modulo,
    LogicalAnd,
    LogicalOr,
    BitwiseAnd,
    BitwiseOr,
    BitwiseXOR,
    LeftShift,
    RightShift,
    UnsignedRightShift,
    Equals,
    EqualsStrict,
    GreaterThan,
    GreaterThanOrEqual,
    InstanceOf,
}

/// The JavaScript token of each operator.
pub open spec fn operator_token(op: BinaryOperator) -> Seq<char> {
    match op {
        BinaryOperator::Addition => seq!['+'],
        BinaryOperator::Subtraction => seq!['-'],
        BinaryOperator::Multiplication => seq!['*'],
        BinaryOperator::Division => seq!['/'],
        BinaryOperator::Modulo => seq!['%'],
        BinaryOperator::LogicalAnd => seq!['&', '&'],
        BinaryOperator::LogicalOr => seq!['|', '|'],
        BinaryOperator::BitwiseAnd => seq!['&'],
        BinaryOperator::BitwiseOr => seq!['|'],
        BinaryOperator::BitwiseXOR => seq!['^'],
        BinaryOperator::LeftShift => seq!['<', '<'],
        BinaryOperator::RightShift => seq!['>', '>'],
        BinaryOperator::UnsignedRightShift => seq!['>', '>', '>'],
        BinaryOperator::Equals => seq!['=', '='],
        BinaryOperator::EqualsStrict => seq!['=', '=', '='],
        BinaryOperator::GreaterThan => seq!['>'],
        BinaryOperator::GreaterThanOrEqual => seq!['>', '='],
        BinaryOperator::InstanceOf => seq!['i', 'n', 's', 't', 'a', 'n', 'c', 'e', 'o', 'f'],
    }
}

impl BinaryOperator {
    /// The source text of the operator.
    pub fn get_operator(&self) -> (r: &'static str)
        ensures
            r@ == operator_token(*self),
    {
        match self {
            BinaryOperator::Addition => {
                proof { reveal_strlit("+"); }
                "+"
            },
            BinaryOperator::Subtraction => {
                proof { reveal_strlit("-"); }
                "-"
            },
            BinaryOperator::Multiplication => {
                proof { reveal_strlit("*"); }
                "*"
            },
            BinaryOperator::Division => {
                proof { reveal_strlit("/"); }
                "/"
            },
            BinaryOperator::Modulo => {
                proof { reveal_strlit("%"); }
                "%"
            },
            BinaryOperator::LogicalAnd => {
                proof { reveal_strlit("&&"); }
                "&&"
            },
            BinaryOperator::LogicalOr => {
                proof { reveal_strlit("||"); }
                "||"
            },
            BinaryOperator::BitwiseAnd => {
                proof { reveal_strlit("&"); }
                "&"
            },
            BinaryOperator::BitwiseOr => {
                proof { reveal_strlit("|"); }
                "|"
            },
            BinaryOperator::BitwiseXOR => {
                proof { reveal_strlit("^"); }
                "^"
            },
            BinaryOperator::LeftShift => {
                proof { reveal_strlit("<<"); }
                "<<"
            },
            BinaryOperator::RightShift => {
                proof { reveal_strlit(">>"); }
                ">>"
            },
            BinaryOperator::UnsignedRightShift => {
                proof { reveal_strlit(">>>"); }
                ">>>"
            },
            BinaryOperator::Equals => {
                proof { reveal_strlit("=="); }
                "=="
            },
            BinaryOperator::EqualsStrict => {
                proof { reveal_strlit("==="); }
                "==="
            },
            BinaryOperator::GreaterThan => {
                proof { reveal_strlit(">"); }
                ">"
            },
            BinaryOperator::GreaterThanOrEqual => {
                proof { reveal_strlit(">="); }
                ">="
            },
            BinaryOperator::InstanceOf => {
                proof { reveal_strlit("instanceof"); }
                "instanceof"
            },
        }
    }
}

/// Distinct operators are written with distinct tokens, so the token that
/// `get_operator` gives names its operator uniquely.
pub proof fn lemma_operator_tokens_distinct(a: BinaryOperator, b: BinaryOperator)
    requires
        a != b,
    ensures
        operator_token(a) != operator_token(b),
{
    let ta = operator_token(a);
    let tb = operator_token(b);
    if ta == tb {
        assert(ta.len() == tb.len());
        assert(ta[0] == tb[0]);
        if ta.len() >= 2 {
            assert(ta[1] == tb[1]);
        }
        if ta.len() >= 3 {
            assert(ta[2] == tb[2]);
        }
    }
}

/// The JavaScript spelling of every operator, as `get_operator` returns it.
pub proof fn lemma_operator_spellings()
    ensures
        operator_token(BinaryOperator::Addition) == seq!['+'],
        operator_token(BinaryOperator::Subtraction) == seq!['-'],
        operator_token(BinaryOperator::Multiplication) == seq!['*'],
        operator_token(BinaryOperator::Division) == seq!['/'],
        operator_token(BinaryOperator::Modulo) == seq!['%'],
        operator_token(BinaryOperator::LogicalAnd) == seq!['&', '&'],
        operator_token(BinaryOperator::LogicalOr) == seq!['|', '|'],
        operator_token(BinaryOperator::BitwiseAnd) == seq!['&'],
        operator_token(BinaryOperator::BitwiseOr) == seq!['|'],
        operator_token(BinaryOperator::BitwiseXOR) == seq!['^'],
        operator_token(BinaryOperator::LeftShift) == seq!['<', '<'],
        operator_token(BinaryOperator::RightShift) == seq!['>', '>'],
        operator_token(BinaryOperator::UnsignedRightShift) == seq!['>', '>', '>'],
        operator_token(BinaryOperator::Equals) == seq!['=', '='],
        operator_token(BinaryOperator::EqualsStrict) == seq!['=', '=', '='],
        operator_token(BinaryOperator::GreaterThan) == seq!['>'],
        operator_token(BinaryOperator::GreaterThanOrEqual) == seq!['>', '='],
        operator_token(BinaryOperator::InstanceOf) == seq!['i', 'n', 's', 't', 'a', 'n', 'c', 'e', 'o', 'f'],
{
}

} // verus!
