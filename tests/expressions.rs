use tinylang::lexer::Lexer;
use tinylang::parser::Parser;
use tinylang::{ASTreeNode, AddOp, Interpreter, MulOp, Token, Translator, Type};
use tinylang::interp::MAX_CALL_DEPTH;
#[test]
    fn basic_add(){
        assert_eq!(3, Interpreter::new("1+2").unwrap().interpret().unwrap());
    }

#[test]
    fn unary_minus(){
        assert_eq!(3, Interpreter::new("--3").unwrap().interpret().unwrap());
    }

#[test]
    fn unary_plus(){
        assert_eq!(3, Interpreter::new("++3").unwrap().interpret().unwrap());
    }

#[test]
    fn unary_both() {
        assert_eq!(3, Interpreter::new("++3").unwrap().interpret().unwrap());
    }

#[test]
    fn chain_add(){
        assert_eq!(6, Interpreter::new("1+2+3").unwrap().interpret().unwrap());
    }

#[test]
    fn precedence_test(){
        assert_eq!(7, Interpreter::new("1+2*3").unwrap().interpret().unwrap());
    }

#[test]
    fn precedence_test2(){
        assert_eq!(5, Interpreter::new("1*2+3").unwrap().interpret().unwrap());
    }

#[test]
    fn parentheses_test(){
        assert_eq!(9, Interpreter::new("(1+2)*3").unwrap().interpret().unwrap());
    }

#[test]
    fn basic_interp_plus(){
        let root = ASTreeNode::new_with_values(Token::ADDOP(AddOp::PLUS), Some(Box::new(ASTreeNode::new(Token::DIGIT(1)))), Some(Box::new(ASTreeNode::new(Token::DIGIT(2)))));
        assert_eq!(Token::DIGIT(3), Interpreter::new("0").unwrap().interpret_input(&root, MAX_CALL_DEPTH).unwrap());
    }

#[test]
    fn basic_interp_minus(){
        let root = ASTreeNode::new_with_values(Token::ADDOP(AddOp::MINUS), Some(Box::new(ASTreeNode::new(Token::DIGIT(2)))), Some(Box::new(ASTreeNode::new(Token::DIGIT(1)))));
        assert_eq!(Token::DIGIT(1), Interpreter::new("0").unwrap().interpret_input(&root, MAX_CALL_DEPTH).unwrap());
    }

#[test]
    fn basic_interp_times(){
        let root = ASTreeNode::new_with_values(Token::MULOP(MulOp::MULT), Some(Box::new(ASTreeNode::new(Token::DIGIT(2)))), Some(Box::new(ASTreeNode::new(Token::DIGIT(3)))));
        assert_eq!(Token::DIGIT(6), Interpreter::new("0").unwrap().interpret_input(&root, MAX_CALL_DEPTH).unwrap());
    }

#[test]
    fn basic_interp_divide(){
        let root = ASTreeNode::new_with_values(Token::MULOP(MulOp::DIV), Some(Box::new(ASTreeNode::new(Token::DIGIT(2)))), Some(Box::new(ASTreeNode::new(Token::DIGIT(3)))));
        assert_eq!(Token::DIGIT(0), Interpreter::new("0").unwrap().interpret_input(&root, MAX_CALL_DEPTH).unwrap());
    }

#[test]
    fn basic_interp_modulo(){
        let root = ASTreeNode::new_with_values(Token::MULOP(MulOp::MODU), Some(Box::new(ASTreeNode::new(Token::DIGIT(2)))), Some(Box::new(ASTreeNode::new(Token::DIGIT(3)))));
        assert_eq!(Token::DIGIT(2), Interpreter::new("0").unwrap().interpret_input(&root, MAX_CALL_DEPTH).unwrap());
    }

#[test]
    fn parser_parser_test() {
        assert_eq!(
            ASTreeNode::new_with_values(
                Token::ADDOP(AddOp::PLUS), 
                Some(Box::new(ASTreeNode::new(Token::DIGIT(1)))), 
                Some(Box::new(ASTreeNode::new(Token::DIGIT(2)))))
                , 
            Parser::new("1+2").unwrap().expr().unwrap())
    }

#[test]
    fn parser_parser_basic() {
        assert_eq!(
            ASTreeNode::new(
                Token::DIGIT(1)
            ),
            Parser::new("1").unwrap().expr().unwrap()
        )
    }

#[test]
    fn rpn_translate() {
        assert_eq!("1 2 +", Translator::new("1+2").unwrap().to_rpn().unwrap())
    }
