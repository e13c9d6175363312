use tinylang::lexer::Lexer;
use tinylang::parser::Parser;
use tinylang::{ASTreeNode, AddOp, Interpreter, MulOp, Token, Translator, Type};

/// Folds a float value, held as postfix text, into a machine float.
fn fold_float(t: &Token) -> f32 {
    match t {
        Token::FLOAT(s) => {
            let mut st: Vec<f32> = Vec::new();
            for w in s.split(' ') {
                match w {
                    "+" | "-" | "*" | "/" | "%" => {
                        let b = st.pop().unwrap();
                        let a = st.pop().unwrap();
                        st.push(match w {
                            "+" => a + b,
                            "-" => a - b,
                            "*" => a * b,
                            "/" => a / b,
                            _ => a % b,
                        });
                    }
                    _ => st.push(w.parse().unwrap()),
                }
            }
            st[0]
        }
        _ => panic!("not a float: {:?}", t),
    }
}

#[test]
    fn lib_lexer_test_float() {
        let mut tok = Lexer::new("1.2+2.3").unwrap();
        assert_eq!(Token::FLOAT("1.2".into()), tok.current_token);
        tok.get_next_token();
        assert_eq!(Token::ADDOP(AddOp::PLUS), tok.current_token);
        tok.get_next_token();
        assert_eq!(Token::FLOAT("2.3".into()), tok.current_token);
    }

#[test]
    fn lib_lexer_peek() {
        let lex = Lexer::new("1+2").unwrap();
        assert_eq!(lex.current_token, Token::DIGIT(1));
        assert_eq!(lex.peek(), Some('+'))
    }

#[test]
    fn lib_lexer_test() {
        let mut tok = Lexer::new("1+2").unwrap();
        assert_eq!(Token::DIGIT(1), tok.current_token);
        tok.get_next_token();
        assert_eq!(Token::ADDOP(AddOp::PLUS), tok.current_token);
        tok.get_next_token();
        assert_eq!(Token::DIGIT(2), tok.current_token);
    }

#[test]
    fn lib_lexer_return() {
        let mut tok = Lexer::new("return a").unwrap();
        assert_eq!(Token::RET, tok.current_token);
        tok.get_next_token();
        assert_eq!(Token::IDENT("a".into()), tok.current_token);
    }

#[test]
    fn lib_lexer_test_assign() {
        let mut tok = Lexer::new("1=2").unwrap();
        assert_eq!(Token::DIGIT(1), tok.current_token);
        tok.get_next_token();
        assert_eq!(Token::ASSIGN, tok.current_token);
        tok.get_next_token();
        assert_eq!(Token::DIGIT(2), tok.current_token);
    }

#[test]
    fn lib_lexer_test_ident_vs_key() {
        let mut tok = Lexer::new("int a").unwrap();
        assert_eq!(Token::Type(Type::INT), tok.current_token);
        tok.get_next_token();
        assert_eq!(Token::IDENT("a".into()), tok.current_token);
    }

#[test]
    fn lib_lexer_test_fn() {
        let tok = Lexer::new("fn").unwrap();
        assert_eq!(Token::Type(Type::FUNC), tok.current_token);
    }

#[test]
    fn lib_parser_atom_test_float() {
        let mut pars = Parser::new("1.2+2").unwrap();
        assert_eq!(Ok(ASTreeNode::new(Token::FLOAT("1.2".into()))), pars.atom())
    }

#[test]
    fn lib_parser_test() {
        assert_eq!(
            ASTreeNode::new_with_values(
                Token::ADDOP(AddOp::PLUS),
                Some(Box::new(ASTreeNode::new(Token::DIGIT(1)))),
                Some(Box::new(ASTreeNode::new(Token::DIGIT(2))))
            ),
            Parser::new("1+2").unwrap().expr().unwrap()
        )
    }

#[test]
    fn lib_parser_atom_test() {
        let mut pars = Parser::new("1+2").unwrap();
        assert_eq!(Ok(ASTreeNode::new(Token::DIGIT(1))), pars.atom())
    }

#[test]
    fn lib_parser_empty_block() {
        let root = Parser::new("{}");
        assert_eq!(
            Ok(ASTreeNode::new(Token::StatementList(Vec::new()))),
            root.unwrap().parse_block()
        )
    }

#[test]
    fn lib_parser_block_basic() {
        let root = Parser::new("{1+2;}");
        assert_eq!(
            ASTreeNode::new(Token::StatementList(vec![ASTreeNode::new_with_values(
                Token::ADDOP(AddOp::PLUS),
                Some(Box::new(ASTreeNode::new(Token::DIGIT(1)))),
                Some(Box::new(ASTreeNode::new(Token::DIGIT(2))))
            )])),
            root.unwrap().parse_block().unwrap()
        )
    }

#[test]
    fn lib_parser_block2() {
        let root = Parser::new("{1+2;3+2;}");
        assert_eq!(
            Ok(ASTreeNode::new(Token::StatementList(vec![
                ASTreeNode::new_with_values(
                    Token::ADDOP(AddOp::PLUS),
                    Some(Box::new(ASTreeNode::new(Token::DIGIT(1)))),
                    Some(Box::new(ASTreeNode::new(Token::DIGIT(2))))
                ),
                ASTreeNode::new_with_values(
                    Token::ADDOP(AddOp::PLUS),
                    Some(Box::new(ASTreeNode::new(Token::DIGIT(3)))),
                    Some(Box::new(ASTreeNode::new(Token::DIGIT(2))))
                )
            ]))),
            root.unwrap().parse_block()
        )
    }

#[test]
    fn lib_parser_assignment() {
        assert_eq!(
            ASTreeNode::new_with_values(
                Token::ASSIGN,
                Some(Box::new(ASTreeNode::new(Token::DIGIT(1)))),
                Some(Box::new(ASTreeNode::new(Token::DIGIT(1))))
            ),
            Parser::new("1=1").unwrap().expr().unwrap()
        )
    }

#[test]
    fn lib_parser_block_with_assign() {
        let root = Parser::new("{1+2;3+2; int a = 3;}");
        assert_eq!(
            Ok(ASTreeNode::new(Token::StatementList(vec![
                ASTreeNode::new_with_values(
                    Token::ADDOP(AddOp::PLUS),
                    Some(Box::new(ASTreeNode::new(Token::DIGIT(1)))),
                    Some(Box::new(ASTreeNode::new(Token::DIGIT(2))))
                ),
                ASTreeNode::new_with_values(
                    Token::ADDOP(AddOp::PLUS),
                    Some(Box::new(ASTreeNode::new(Token::DIGIT(3)))),
                    Some(Box::new(ASTreeNode::new(Token::DIGIT(2))))
                ),
                ASTreeNode::new_with_values(
                    Token::Type(Type::INT),
                    Some(Box::new(ASTreeNode::new(Token::IDENT("a".into())))),
                    Some(Box::new(ASTreeNode::new(Token::DIGIT(3))))
                )
            ]))),
            root.unwrap().parse_block()
        )
    }

#[test]
    fn lib_parser_block_nosemi() {
        let root = Parser::new("{1+2;3+2}");
        assert_eq!(
            Ok(ASTreeNode::new(Token::StatementList(vec![
                ASTreeNode::new_with_values(
                    Token::ADDOP(AddOp::PLUS),
                    Some(Box::new(ASTreeNode::new(Token::DIGIT(1)))),
                    Some(Box::new(ASTreeNode::new(Token::DIGIT(2))))
                ),
                ASTreeNode::new_with_values(
                    Token::RET,
                    Some(Box::new(ASTreeNode::new_with_values(
                        Token::ADDOP(AddOp::PLUS),
                        Some(Box::new(ASTreeNode::new(Token::DIGIT(3)))),
                        Some(Box::new(ASTreeNode::new(Token::DIGIT(2))))
                    ))),
                    None
                )
            ]))),
            root.unwrap().parse_block()
        )
    }

#[test]
    fn lib_parser_atom_test3() {
        let mut pars = Parser::new("1+2").unwrap();
        pars.lexer.get_next_token();
        pars.lexer.get_next_token();

        assert_eq!(Ok(ASTreeNode::new(Token::DIGIT(2))), pars.atom())
    }

#[test]
    fn lib_parser_basic() {
        assert_eq!(
            ASTreeNode::new(Token::DIGIT(1)),
            Parser::new("1").unwrap().expr().unwrap()
        )
    }

#[test]
    fn lib_parser_test_mult() {
        assert_eq!(
            ASTreeNode::new_with_values(
                Token::MULOP(MulOp::MULT),
                Some(Box::new(ASTreeNode::new(Token::DIGIT(1)))),
                Some(Box::new(ASTreeNode::new(Token::DIGIT(2))))
            ),
            Parser::new("1*2").unwrap().expr().unwrap()
        )
    }

#[test]
    fn lib_parser_statement() {
        assert_eq!(
            Parser::new("1+2").unwrap().expr().unwrap(),
            Parser::new("1+2;").unwrap().statement().unwrap()
        )
    }

#[test]
    fn lib_parser_precedence() {
        assert_eq!(
            ASTreeNode::new_with_values(
                Token::ADDOP(AddOp::PLUS),
                Some(Box::new(ASTreeNode::new(Token::DIGIT(1)))),
                Some(Box::new(ASTreeNode::new_with_values(
                    Token::MULOP(MulOp::MULT),
                    Some(Box::new(ASTreeNode::new(Token::DIGIT(2)))),
                    Some(Box::new(ASTreeNode::new(Token::DIGIT(3))))
                )))
            ),
            Parser::new("1+2*3").unwrap().expr().unwrap()
        )
    }

#[test]
    fn lib_parser_return() {
        assert_eq!(
            ASTreeNode::new_with_values(
                Token::RET,
                Some(Box::new(ASTreeNode::new(Token::DIGIT(3)))),
                None
            ),
            Parser::new("return 3").unwrap().statement().unwrap()
        )
    }

#[test]
    fn lib_parser_basic_declaration() {
        assert_eq!(
            ASTreeNode::new_with_values(
                Token::Type(Type::INT),
                Some(Box::new(ASTreeNode::new(Token::IDENT("a".into())))),
                Some(Box::new(ASTreeNode::new(Token::DIGIT(3)))),
            ),
            Parser::new("int a = 3").unwrap().statement().unwrap()
        )
    }

#[test]
    fn lib_parser_declarations() {
        assert_eq!(
            ASTreeNode::new_with_values(
                Token::StatementList(vec![ASTreeNode::new_with_values(
                    Token::Type(Type::INT),
                    Some(Box::new(ASTreeNode::new(Token::IDENT("a".into())))),
                    Some(Box::new(ASTreeNode::new(Token::DIGIT(3))))
                )]),
                None,
                None
            ),
            Parser::new("{int a = 3;}").unwrap().parse_block().unwrap()
        )
    }

#[test]
    fn lib_parser_double_declaration() {
        assert_eq!(
            Interpreter::new("{int a; int a;}")
                .unwrap()
                .interpret_program().map_err(|e| e.message()),
            Err("Variable already declared!".into())
        )
    }

#[test]
    fn lib_interp_basic_add_float() {
        assert_eq!(
            1.4f32 + 2.3f32,
            fold_float(&Interpreter::new("1.4+2.3")
                .unwrap()
                .interpret_block()
                .unwrap())
        );
    }

#[test]
    fn lib_interp_basic_add() {
        assert_eq!(
            Token::DIGIT(3),
            Interpreter::new("1+2").unwrap().interpret_block().unwrap()
        );
    }

#[test]
    fn lib_interp_unary_minus() {
        assert_eq!(
            Token::DIGIT(3),
            Interpreter::new("--3").unwrap().interpret_block().unwrap()
        );
    }

#[test]
    fn lib_interp_unary_plus() {
        assert_eq!(
            Token::DIGIT(3),
            Interpreter::new("++3").unwrap().interpret_block().unwrap()
        );
    }

#[test]
    fn lib_interp_unary_both() {
        assert_eq!(
            Token::DIGIT(3),
            Interpreter::new("++3").unwrap().interpret_block().unwrap()
        );
    }

#[test]
    fn lib_interp_chain_add() {
        assert_eq!(
            Token::DIGIT(6),
            Interpreter::new("1+2+3")
                .unwrap()
                .interpret_block()
                .unwrap()
        );
    }

#[test]
    fn lib_interp_precedence_test() {
        assert_eq!(
            Token::DIGIT(7),
            Interpreter::new("1+2*3")
                .unwrap()
                .interpret_block()
                .unwrap()
        );
    }

#[test]
    fn lib_interp_precedence_test2() {
        assert_eq!(
            Token::DIGIT(5),
            Interpreter::new("1*2+3")
                .unwrap()
                .interpret_block()
                .unwrap()
        );
    }

#[test]
    fn lib_interp_parentheses_test() {
        assert_eq!(
            Token::DIGIT(9),
            Interpreter::new("(1+2)*3")
                .unwrap()
                .interpret_block()
                .unwrap()
        );
    }

#[test]
    fn lib_interp_basic_interp_plus() {
        assert_eq!(
            Token::DIGIT(3),
            Interpreter::new("1+2").unwrap().interpret_block().unwrap()
        );
    }

#[test]
    fn lib_interp_basic_interp_minus() {
        assert_eq!(
            Token::DIGIT(1),
            Interpreter::new("2-1").unwrap().interpret_block().unwrap()
        );
    }

#[test]
    fn lib_interp_basic_interp_times() {
        assert_eq!(
            Token::DIGIT(6),
            Interpreter::new("2*3").unwrap().interpret_block().unwrap()
        );
    }

#[test]
    fn lib_interp_basic_interp_divide() {
        assert_eq!(
            Token::DIGIT(0),
            Interpreter::new("2/3").unwrap().interpret_block().unwrap()
        );
    }

#[test]
    fn lib_interp_basic_interp_modulo() {
        assert_eq!(
            Token::DIGIT(2),
            Interpreter::new("2%3").unwrap().interpret_block().unwrap()
        );
    }

#[test]
    fn lib_interp_test_vars() {
        assert_eq!(
            Token::DIGIT(3),
            Interpreter::new("{int a = 3; a}")
                .unwrap()
                .interpret_program()
                .unwrap()
        )
    }

#[test]
    fn lib_interp_rpn_translate() {
        assert_eq!(
            "1 2 +",
            Translator::new("1+2").unwrap().rpn_translate().unwrap()
        )
    }

#[test]
    fn lib_interp_empty_block() {
        assert_eq!(
            Token::Type(Type::NONE),
            Interpreter::new("{}").unwrap().interpret_program().unwrap()
        )
    }

#[test]
    fn lib_interp_different_return_varibale() {
        assert_eq!(
            Token::DIGIT(6),
            Interpreter::new(
                "
            {
                int b = 3; 
                b+3
            }
                "
            )
            .unwrap()
            .interpret_program()
            .unwrap()
        )
    }

#[test]
    fn lib_interp_variable_test() {
        assert_eq!(
            Token::DIGIT(8),
            Interpreter::new(
                "
            {
                int b = 3; 
                b = 5;
                b+3
            }
                "
            )
            .unwrap()
            .interpret_program()
            .unwrap()
        )
    }

#[test]
    fn lib_interp_final_variable_test2() {
        assert_eq!(
            Token::DIGIT(14),
            Interpreter::new(
                "
            {
                int b = 3; 
                int a;
                a = b+3;
                b=5;
                b+3+a
            }
                "
            )
            .unwrap()
            .interpret_program()
            .unwrap()
        )
    }

#[test]
    fn lib_interp_scope_test1() {
        assert_eq!(
            Token::DIGIT(3),
            Interpreter::new(
                "
            {
                int b = 3; 
                {
                    //this is in a different scope
                    int b = 2
                }
                b
            }
                "
            )
            .unwrap()
            .interpret_program()
            .unwrap()
        )
    }

#[test]
    fn lib_interp_basic_function_dec() {
        assert_eq! {
            Token::Type(Type::NONE),
            Interpreter::new("{
                fn returnThree()->int{
                    3
                }
            }").unwrap().interpret_program().unwrap()
        }
    }

#[test]
    fn lib_interp_basic_function_call() {
        assert_eq! {
            Token::DIGIT(3),
            Interpreter::new("
            {
                fn returnThree()->int{
                    3
                }
                returnThree()
            }").unwrap().interpret_program().unwrap()
        }
    }
