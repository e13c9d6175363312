use tinylang::interp::MAX_CALL_DEPTH;
use tinylang::lexer::Lexer;
use tinylang::parser::Parser;
use tinylang::translate::int_to_text;
use tinylang::{ASTreeNode, AddOp, Bool, Compare, Error, Interpreter, MulOp, Token, Translator, Type};

fn program(src: &str) -> Result<Token, Error> {
    Interpreter::new(src).unwrap().interpret_program()
}

fn statement(src: &str) -> Result<Token, Error> {
    Interpreter::new(src).unwrap().interpret_block()
}

/// Runs integer postfix text on a stack.
fn run_int_postfix(text: &str) -> i64 {
    let mut st: Vec<i64> = Vec::new();
    for w in text.split(' ') {
        match w {
            "+" | "-" | "*" | "/" | "%" => {
                let b = st.pop().unwrap();
                let a = st.pop().unwrap();
                st.push(match w {
                    "+" => a + b,
                    "-" => a - b,
                    "*" => a * b,
                    "/" => a / b,
                    _ => a % b,
                });
            }
            _ => st.push(w.parse().unwrap()),
        }
    }
    assert_eq!(st.len(), 1);
    st[0]
}

#[test]
fn precedence_of_products_over_sums() {
    assert_eq!(statement("1+2*3"), Ok(Token::DIGIT(7)));
    assert_eq!(statement("1*2+3"), Ok(Token::DIGIT(5)));
    assert_eq!(statement("(1+2)*3"), Ok(Token::DIGIT(9)));
}

#[test]
fn binary_operators_group_to_the_right() {
    assert_eq!(statement("10-4-3"), Ok(Token::DIGIT(9)));
    assert_eq!(statement("8/4/2"), Ok(Token::DIGIT(4)));
}

#[test]
fn unary_chains() {
    assert_eq!(statement("--3"), Ok(Token::DIGIT(3)));
    assert_eq!(statement("++3"), Ok(Token::DIGIT(3)));
    assert_eq!(statement("-+-3"), Ok(Token::DIGIT(3)));
    assert_eq!(statement("-3"), Ok(Token::DIGIT(-3)));
}

#[test]
fn declaration_then_mutation() {
    assert_eq!(program("{int b = 3; b = 5; b+3}"), Ok(Token::DIGIT(8)));
}

#[test]
fn inner_declaration_does_not_leak() {
    assert_eq!(program("{int b = 3; { int b = 2 } b}"), Ok(Token::DIGIT(3)));
    assert_eq!(program("{int b = 3; { b = 2; } b}"), Ok(Token::DIGIT(2)));
    assert_eq!(program("{ { int c = 2; } c}"), Err(Error::NotDeclared));
}

#[test]
fn redeclaration_in_one_block_is_refused() {
    assert_eq!(program("{int a; int a;}"), Err(Error::AlreadyDeclared));
    assert_eq!(program("{int a = 1; int a = 2;}"), Err(Error::AlreadyDeclared));
    assert_eq!(Error::AlreadyDeclared.message(), "Variable already declared!");
}

#[test]
fn function_with_argument_and_recursion() {
    assert_eq!(
        program("{ fn returnArg(int a)->int{ a } returnArg(3) }"),
        Ok(Token::DIGIT(3))
    );
    assert_eq!(
        program(
            "{ fn down(int a)->int{ if(a == 1){ return 1 }else{ return down(a-1) } } down(5) }"
        ),
        Ok(Token::DIGIT(1))
    );
}

#[test]
fn recursion_computes_a_factorial() {
    assert_eq!(
        program(
            "{ fn fact(int n)->int{ if(n == 0){ return 1 }else{ return n * fact(n-1) } } fact(5) }"
        ),
        Ok(Token::DIGIT(120))
    );
}

#[test]
fn two_parameters_with_and_without_commas() {
    assert_eq!(program("{ fn sub(int a, int b)->int{ a-b } sub(7, 2) }"), Ok(Token::DIGIT(5)));
    assert_eq!(program("{ fn sub(int a int b)->int{ a-b } sub(7 2) }"), Ok(Token::DIGIT(5)));
}

#[test]
fn if_and_else() {
    assert_eq!(program("{ if(1){return 5;} return 3; }"), Ok(Token::DIGIT(5)));
    assert_eq!(program("{ if(0){return 5;}else{return 3;} }"), Ok(Token::DIGIT(3)));
    assert_eq!(
        program("{ int a = 2; if(a == 1){ return 1; } else if(a == 2){ return 2; } else { return 3; } }"),
        Ok(Token::DIGIT(2))
    );
    assert_eq!(program("{ if(0){ return 5; } }"), Ok(Token::Type(Type::NONE)));
}

#[test]
fn float_argument_for_int_parameter_is_refused() {
    assert_eq!(
        program("{ fn returnArg(int a)->int{ a } returnArg(3.5) }"),
        Err(Error::ArgumentTypeMismatch)
    );
}

#[test]
fn wrong_number_of_arguments() {
    assert_eq!(
        program("{ fn returnArg(int a)->int{ a } returnArg() }"),
        Err(Error::ArgumentCount)
    );
}

#[test]
fn postfix_translation_agrees_with_evaluation() {
    for src in ["1+2*3", "(1+2)*3", "7-2-1", "9/2%4", "12*3-4/2"] {
        let text = Translator::new(src).unwrap().rpn_translate().unwrap();
        let value = match statement(src) {
            Ok(Token::DIGIT(v)) => v as i64,
            other => panic!("unexpected {:?}", other),
        };
        assert_eq!(run_int_postfix(&text), value, "{}", src);
    }
    assert_eq!(Translator::new("1+2*3").unwrap().to_rpn().unwrap(), "1 2 3 * +");
}

#[test]
fn translator_refuses_non_arithmetic() {
    assert_eq!(Translator::new("-1").unwrap().rpn_translate(), Err(Error::UnexpectedNode));
    assert_eq!(Translator::new("a+1").unwrap().rpn_translate(), Err(Error::UnexpectedNode));
}

#[test]
fn decimal_text_of_integers() {
    assert_eq!(int_to_text(0), "0");
    assert_eq!(int_to_text(1234), "1234");
    assert_eq!(int_to_text(-56), "-56");
    assert_eq!(int_to_text(i32::MIN), "-2147483648");
}

#[test]
fn integer_division_truncates_toward_zero() {
    assert_eq!(statement("7/2"), Ok(Token::DIGIT(3)));
    assert_eq!(statement("-7/2"), Ok(Token::DIGIT(-3)));
    assert_eq!(statement("-7%2"), Ok(Token::DIGIT(-1)));
    assert_eq!(statement("7%-2"), Ok(Token::DIGIT(1)));
}

#[test]
fn division_by_zero_is_an_error() {
    assert_eq!(statement("1/0"), Err(Error::DivisionByZero));
    assert_eq!(statement("1%0"), Err(Error::DivisionByZero));
}

#[test]
fn integer_overflow_is_an_error() {
    assert_eq!(statement("2147483647+1"), Err(Error::Overflow));
    assert_eq!(statement("-2147483647-2"), Err(Error::Overflow));
    assert_eq!(statement("65536*65536"), Err(Error::Overflow));
    assert_eq!(statement("2147483647"), Ok(Token::DIGIT(i32::MAX)));
}

#[test]
fn integer_literal_too_large() {
    assert!(matches!(Lexer::new("2147483648"), Err(Error::IntegerTooLarge)));
    assert!(matches!(Lexer::new("99999999999999999999"), Err(Error::IntegerTooLarge)));
}

#[test]
fn float_arithmetic_is_kept_as_postfix_text() {
    assert_eq!(statement("1.5+2.25"), Ok(Token::FLOAT("1.5 2.25 +".into())));
    assert_eq!(
        statement("1.5*(2.0-0.5)"),
        Ok(Token::FLOAT("1.5 2.0 0.5 - *".into()))
    );
}

#[test]
fn mixed_operand_types_are_an_error() {
    assert_eq!(statement("1+2.5"), Err(Error::OperandTypeMismatch));
    assert_eq!(statement("2.5+1"), Err(Error::OperandTypeMismatch));
    assert_eq!(statement("-2.5"), Err(Error::OperandTypeMismatch));
}

#[test]
fn equality_comparisons() {
    assert_eq!(statement("1 == 1"), Ok(Token::BOOL(Bool::True)));
    assert_eq!(statement("1 == 2"), Ok(Token::BOOL(Bool::False)));
    assert_eq!(statement("1 != 2"), Ok(Token::BOOL(Bool::True)));
    assert_eq!(statement("1.5 == 1.5"), Ok(Token::BOOL(Bool::True)));
    assert_eq!(statement("1 == 1.0"), Ok(Token::BOOL(Bool::False)));
}

#[test]
fn ordering_comparisons_are_unimplemented() {
    assert_eq!(statement("1 < 2"), Err(Error::Unimplemented));
    assert_eq!(statement("1 >= 2"), Err(Error::Unimplemented));
}

#[test]
fn variable_errors() {
    assert_eq!(program("{ a }"), Err(Error::NotDeclared));
    assert_eq!(program("{ int a; a }"), Err(Error::NotInitialized));
    assert_eq!(program("{ 1 = 2; }"), Err(Error::NotAssignable));
    assert_eq!(program("{ b = 2; }"), Err(Error::NotDeclared));
    assert_eq!(
        program("{ fn nothing(){ } int a; a = nothing(); }"),
        Err(Error::NoValue)
    );
}

#[test]
fn callee_does_not_see_caller_locals() {
    assert_eq!(
        program("{ int x = 4; fn f()->int{ x } f() }"),
        Err(Error::NotDeclared)
    );
}

#[test]
fn statement_level_declarations_are_global() {
    let mut it = Interpreter::new("int g = 4").unwrap();
    assert_eq!(it.interpret_block(), Ok(Token::Type(Type::NONE)));
    assert_eq!(it.global_vars.len(), 1);
    assert_eq!(it.global_vars[0].name, "g");
}

#[test]
fn unbounded_recursion_stops_at_the_depth_limit() {
    assert_eq!(
        program("{ fn f(int a)->int{ return f(a) } f(1) }"),
        Err(Error::CallDepthExceeded)
    );
    assert!(MAX_CALL_DEPTH > 0);
}

#[test]
fn lexer_errors() {
    assert!(matches!(Lexer::new(""), Err(Error::EmptyInput)));
    assert!(matches!(Lexer::new("#"), Err(Error::UnrecognizedChar('#'))));
    assert!(matches!(Lexer::new("!"), Err(Error::UnrecognizedChar('!'))));
}

#[test]
fn lexer_symbols_and_comments() {
    let mut lx = Lexer::new("  a // note\n <= >= != == -> - / ,  ").unwrap();
    let mut seen = vec![];
    loop {
        seen.push(format!("{:?}", lx.current_token));
        if lx.current_token == Token::EOF {
            break;
        }
        lx.get_next_token().unwrap();
    }
    assert_eq!(
        seen,
        vec![
            format!("{:?}", Token::IDENT("a".into())),
            format!("{:?}", Token::COMPARE(Compare::LE)),
            format!("{:?}", Token::COMPARE(Compare::GE)),
            format!("{:?}", Token::COMPARE(Compare::NE)),
            format!("{:?}", Token::COMPARE(Compare::EQ)),
            format!("{:?}", Token::ARROW),
            format!("{:?}", Token::ADDOP(AddOp::MINUS)),
            format!("{:?}", Token::MULOP(MulOp::DIV)),
            format!("{:?}", Token::COMMA),
            format!("{:?}", Token::EOF),
        ]
    );
}

#[test]
fn lexer_unicode_words_and_whitespace() {
    let mut lx = Lexer::new("\t\u{00e9}t\u{00e9}2\u{3000}x").unwrap();
    assert_eq!(lx.current_token, Token::IDENT("\u{00e9}t\u{00e9}2".into()));
    lx.get_next_token().unwrap();
    assert_eq!(lx.current_token, Token::IDENT("x".into()));
    let lx = Lexer::new(" \n ").unwrap();
    assert_eq!(lx.current_token, Token::EOF);
}

#[test]
fn lexer_keywords() {
    for (w, t) in [
        ("int", Token::Type(Type::INT)),
        ("fn", Token::Type(Type::FUNC)),
        ("return", Token::RET),
        ("if", Token::If),
        ("else", Token::Else),
        ("integer", Token::IDENT("integer".into())),
    ] {
        assert_eq!(Lexer::new(w).unwrap().current_token, t);
    }
}

#[test]
fn parse_errors() {
    assert_eq!(Parser::new("(1").unwrap().expr(), Err(Error::ExpectedRParen));
    assert_eq!(Parser::new(")").unwrap().expr(), Err(Error::ExpectedOperand));
    assert_eq!(Parser::new("1").unwrap().parse_block(), Err(Error::ExpectedLBrace));
    assert_eq!(Parser::new("{1 2}").unwrap().parse_block(), Err(Error::ExpectedSemi));
    assert_eq!(Parser::new("int 3").unwrap().statement(), Err(Error::ExpectedIdentifier));
    assert_eq!(Parser::new("fn 3").unwrap().statement(), Err(Error::ExpectedFunctionName));
    assert_eq!(Parser::new("fn f{}").unwrap().statement(), Err(Error::ExpectedLParen));
    assert_eq!(Parser::new("fn f(a){}").unwrap().statement(), Err(Error::ExpectedType));
    assert_eq!(Parser::new("fn f(int 1){}").unwrap().statement(), Err(Error::ExpectedIdentifier));
    assert_eq!(Parser::new("fn f() 1").unwrap().statement(), Err(Error::ExpectedArrowOrBrace));
    assert_eq!(Parser::new("fn f()-> 1 {}").unwrap().statement(), Err(Error::ExpectedType));
    assert_eq!(Parser::new("if 1 2").unwrap().statement(), Err(Error::ExpectedLBrace));
    assert_eq!(Parser::new("{ 1;").unwrap().parse_block(), Err(Error::ExpectedOperand));
}

#[test]
fn evaluating_a_tree_directly() {
    let root = ASTreeNode::new_with_values(
        Token::MULOP(MulOp::MODU),
        Some(Box::new(ASTreeNode::new(Token::DIGIT(7)))),
        Some(Box::new(ASTreeNode::new(Token::DIGIT(4)))),
    );
    let mut it = Interpreter::new("0").unwrap();
    assert_eq!(it.interpret_input(&root, MAX_CALL_DEPTH), Ok(Token::DIGIT(3)));
    let lone = ASTreeNode::new(Token::ADDOP(AddOp::PLUS));
    assert_eq!(it.interpret_input(&lone, MAX_CALL_DEPTH), Err(Error::MissingOperand));
    let stray = ASTreeNode::new(Token::SEMI);
    assert_eq!(it.interpret_input(&stray, MAX_CALL_DEPTH), Err(Error::UnexpectedNode));
}

#[test]
fn interpret_returns_integers_only() {
    assert_eq!(Interpreter::new("6*7").unwrap().interpret(), Ok(42));
    assert_eq!(Interpreter::new("1.5").unwrap().interpret(), Err(Error::OperandTypeMismatch));
}
