use vstd::prelude::*;

use crate::chars::{
    alphabetic, alphanumeric, decimal_digit, is_alphabetic, is_alphanumeric, is_decimal_digit,
    is_whitespace, whitespace,
};
use crate::error::Error;
use crate::token::{AddOp, Compare, MulOp, Tok, Token, Type};

verus! {

/// The first position at or after `i` that is neither whitespace nor inside a
/// `//` comment; a comment runs up to the next newline.
pub open spec fn skip_trivia(s: Seq<char>, i: int, in_comment: bool) -> int
    decreases s.len() - i, (if in_comment { 1int } else { 0int }),
{
    if i < 0 || i >= s.len() {
        i
    } else if in_comment {
        if s[i] == '\n' {
            skip_trivia(s, i, false)
        } else {
            skip_trivia(s, i + 1, true)
        }
    } else if whitespace(s[i]) {
        skip_trivia(s, i + 1, false)
    } else if s[i] == '/' && i + 1 < s.len() && s[i + 1] == '/' {
        skip_trivia(s, i + 2, true)
    } else {
        i
    }
}

/// The end of the run of decimal digits that starts at `i`.
pub open spec fn digits_end(s: Seq<char>, i: int) -> int
    decreases s.len() - i,
{
    if 0 <= i < s.len() && decimal_digit(s[i]) {
        digits_end(s, i + 1)
    } else {
        i
    }
}

/// The end of the run of alphanumeric characters that starts at `i`.
pub open spec fn word_end(s: Seq<char>, i: int) -> int
    decreases s.len() - i,
{
    if 0 <= i < s.len() && alphanumeric(s[i]) {
        word_end(s, i + 1)
    } else {
        i
    }
}

/// The value of a sequence of decimal digits.
pub open spec fn digits_value(d: Seq<char>) -> int
    decreases d.len(),
{
    if d.len() == 0 {
        0
    } else {
        digits_value(d.drop_last()) * 10 + (d.last() as int - '0' as int)
    }
}

/// The token of a reserved word.
pub open spec fn keyword(w: Seq<char>) -> Option<Tok> {
    if w == "int"@ {
        Some(Tok::Type(Type::INT))
    } else if w == "fn"@ {
        Some(Tok::Type(Type::FUNC))
    } else if w == "return"@ {
        Some(Tok::Ret)
    } else if w == "if"@ {
        Some(Tok::If)
    } else if w == "else"@ {
        Some(Tok::Else)
    } else {
        None
    }
}

/// Whether position `i` holds the character `c`.
pub open spec fn at(s: Seq<char>, i: int, c: char) -> bool {
    0 <= i < s.len() && s[i] == c
}

/// The token that starts at `p`, one of the operators and punctuation marks,
/// and the position after it.
pub open spec fn symbol(s: Seq<char>, p: int) -> Result<(Tok, int), Error> {
    let c = s[p];
    if c == '+' {
        Ok((Tok::AddOp(AddOp::PLUS), p + 1))
    } else if c == '-' {
        if at(s, p + 1, '>') {
            Ok((Tok::Arrow, p + 2))
        } else {
            Ok((Tok::AddOp(AddOp::MINUS), p + 1))
        }
    } else if c == '*' {
        Ok((Tok::MulOp(MulOp::MULT), p + 1))
    } else if c == '/' {
        Ok((Tok::MulOp(MulOp::DIV), p + 1))
    } else if c == '%' {
        Ok((Tok::MulOp(MulOp::MODU), p + 1))
    } else if c == '(' {
        Ok((Tok::LParen, p + 1))
    } else if c == ')' {
        Ok((Tok::RParen, p + 1))
    } else if c == '{' {
        Ok((Tok::LBrace, p + 1))
    } else if c == '}' {
        Ok((Tok::RBrace, p + 1))
    } else if c == ';' {
        Ok((Tok::Semi, p + 1))
    } else if c == ',' {
        Ok((Tok::Comma, p + 1))
    } else if c == '=' {
        if at(s, p + 1, '=') {
            Ok((Tok::Compare(Compare::EQ), p + 2))
        } else {
            Ok((Tok::Assign, p + 1))
        }
    } else if c == '<' {
        if at(s, p + 1, '=') {
            Ok((Tok::Compare(Compare::LE), p + 2))
        } else {
            Ok((Tok::Compare(Compare::LT), p + 1))
        }
    } else if c == '>' {
        if at(s, p + 1, '=') {
            Ok((Tok::Compare(Compare::GE), p + 2))
        } else {
            Ok((Tok::Compare(Compare::GT), p + 1))
        }
    } else if c == '!' && at(s, p + 1, '=') {
        Ok((Tok::Compare(Compare::NE), p + 2))
    } else {
        Err(Error::UnrecognizedChar(c))
    }
}

/// The number literal that starts at `p`: an integer, or a float when the
/// digits are followed by `.` (and optionally more digits).
pub open spec fn number(s: Seq<char>, p: int) -> Result<(Tok, int), Error> {
    let e = digits_end(s, p);
    if at(s, e, '.') {
        let f = digits_end(s, e + 1);
        Ok((Tok::Float(s.subrange(p, f)), f))
    } else {
        let v = digits_value(s.subrange(p, e));
        if v > i32::MAX {
            Err(Error::IntegerTooLarge)
        } else {
            Ok((Tok::Digit(v as i32), e))
        }
    }
}

/// The token that follows position `i` and the position after it.
pub open spec fn scan(s: Seq<char>, i: int) -> Result<(Tok, int), Error> {
    let p = skip_trivia(s, i, false);
    if p >= s.len() {
        Ok((Tok::Eof, p))
    } else if decimal_digit(s[p]) {
        number(s, p)
    } else if alphabetic(s[p]) {
        let e = word_end(s, p + 1);
        let w = s.subrange(p, e);
        match keyword(w) {
            Some(t) => Ok((t, e)),
            None => Ok((Tok::Ident(w), e)),
        }
    } else {
        symbol(s, p)
    }
}

/// The number of leading whitespace characters.
pub open spec fn leading_ws(s: Seq<char>, i: int) -> int
    decreases s.len() - i,
{
    if 0 <= i < s.len() && whitespace(s[i]) {
        leading_ws(s, i + 1)
    } else {
        i
    }
}

/// The end of `s` once trailing whitespace after position `lo` is dropped.
pub open spec fn trailing_ws(s: Seq<char>, lo: int, j: int) -> int
    decreases j - lo,
{
    if lo < j <= s.len() && whitespace(s[j - 1]) {
        trailing_ws(s, lo, j - 1)
    } else {
        j
    }
}

/// `s` without leading and trailing whitespace.
pub open spec fn trim(s: Seq<char>) -> Seq<char> {
    let lo = leading_ws(s, 0);
    s.subrange(lo, trailing_ws(s, lo, s.len() as int))
}

proof fn lemma_skip_trivia_bounds(s: Seq<char>, i: int, c: bool)
    requires
        0 <= i <= s.len(),
    ensures
        i <= skip_trivia(s, i, c) <= s.len(),
    decreases s.len() - i, (if c { 1int } else { 0int }),
{
    if i < s.len() {
        if c {
            if s[i] == '\n' {
                lemma_skip_trivia_bounds(s, i, false);
            } else {
                lemma_skip_trivia_bounds(s, i + 1, true);
            }
        } else if whitespace(s[i]) {
            lemma_skip_trivia_bounds(s, i + 1, false);
        } else if s[i] == '/' && i + 1 < s.len() && s[i + 1] == '/' {
            lemma_skip_trivia_bounds(s, i + 2, true);
        }
    }
}

proof fn lemma_digits_end_bounds(s: Seq<char>, i: int)
    requires
        0 <= i <= s.len(),
    ensures
        i <= digits_end(s, i) <= s.len(),
        forall|k: int| i <= k < digits_end(s, i) ==> decimal_digit(#[trigger] s[k]),
    decreases s.len() - i,
{
    if i < s.len() && decimal_digit(s[i]) {
        lemma_digits_end_bounds(s, i + 1);
    }
}

proof fn lemma_word_end_bounds(s: Seq<char>, i: int)
    requires
        0 <= i <= s.len(),
    ensures
        i <= word_end(s, i) <= s.len(),
    decreases s.len() - i,
{
    if i < s.len() && alphanumeric(s[i]) {
        lemma_word_end_bounds(s, i + 1);
    }
}

proof fn lemma_digits_value_nonneg(d: Seq<char>)
    requires
        forall|j: int| 0 <= j < d.len() ==> decimal_digit(#[trigger] d[j]),
    ensures
        digits_value(d) >= 0,
    decreases d.len(),
{
    if d.len() > 0 {
        lemma_digits_value_nonneg(d.drop_last());
        assert(decimal_digit(d[d.len() - 1]));
    }
}

proof fn lemma_digits_value_grows(d: Seq<char>, k: int)
    requires
        0 <= k <= d.len(),
        forall|j: int| 0 <= j < d.len() ==> decimal_digit(#[trigger] d[j]),
    ensures
        digits_value(d.subrange(0, k)) <= digits_value(d),
    decreases d.len(),
{
    if k == d.len() {
        assert(d.subrange(0, k) =~= d);
    } else {
        let e = d.drop_last();
        lemma_digits_value_grows(e, k);
        assert(e.subrange(0, k) =~= d.subrange(0, k));
        lemma_digits_value_nonneg(e);
        assert(decimal_digit(d[d.len() - 1]));
    }
}

/// Scanning never moves backwards, stays within the input, and consumes at
/// least one character for every token but end-of-input.
pub proof fn lemma_scan_progress(s: Seq<char>, i: int)
    requires
        0 <= i <= s.len(),
    ensures
        scan(s, i) matches Ok((t, q)) ==> i <= q <= s.len() && (!(t is Eof) ==> q > i),
{
    lemma_skip_trivia_bounds(s, i, false);
    let p = skip_trivia(s, i, false);
    if p < s.len() {
        lemma_digits_end_bounds(s, p);
        if decimal_digit(s[p]) {
            lemma_digits_end_bounds(s, p + 1);
            assert(digits_end(s, p) == digits_end(s, p + 1));
        }
        let e = digits_end(s, p);
        if at(s, e, '.') {
            lemma_digits_end_bounds(s, e + 1);
        }
        lemma_word_end_bounds(s, p + 1);
    }
}

/// A pull-based lexer over a trimmed character buffer. It always holds the
/// token that was scanned last.
pub struct Lexer {
    pub input: Vec<char>,
    pub text: String,
    pub position: usize,
    pub current_token: Token,
}

impl Lexer {
    pub open spec fn wf(&self) -> bool {
        &&& self.text@ == self.input@
        &&& self.position <= self.input@.len()
        &&& self.input@.len() < usize::MAX
    }

    /// Whether the token has no syntax-tree payload (every token that the
    /// lexer produces).
    pub open spec fn lexed(&self) -> bool {
        !(self.current_token is StatementList || self.current_token is FuncData
            || self.current_token is ArgList || self.current_token is IfData)
    }

    /// The character at the cursor, if any.
    pub fn peek(&self) -> (r: Option<char>)
        requires
            self.wf(),
        ensures
            r == (if self.position < self.input@.len() {
                Some(self.input@[self.position as int])
            } else {
                None
            }),
    {
        if self.position >= self.input.len() {
            None
        } else {
            Some(self.input[self.position])
        }
    }

    fn substring(&self, a: usize, b: usize) -> (r: String)
        requires
            self.wf(),
            a <= b <= self.input@.len(),
        ensures
            r@ == self.input@.subrange(a as int, b as int),
    {
        String::from_str(self.text.as_str().substring_char(a, b))
    }

    fn word_matches(&self, a: usize, b: usize, kw: &str) -> (r: bool)
        requires
            self.wf(),
            a <= b <= self.input@.len(),
        ensures
            r == (self.input@.subrange(a as int, b as int) == kw@),
    {
        let n = kw.unicode_len();
        if n != b - a {
            return false;
        }
        let mut k: usize = 0;
        while k < n
            invariant
                self.wf(),
                a <= b <= self.input@.len(),
                n == b - a,
                n == kw@.len(),
                k <= n,
                forall|j: int| 0 <= j < k ==> self.input@[a + j] == kw@[j],
            decreases n - k,
        {
            if self.input[a + k] != kw.get_char(k) {
                assert(self.input@.subrange(a as int, b as int)[k as int] != kw@[k as int]);
                return false;
            }
            k = k + 1;
        }
        assert(self.input@.subrange(a as int, b as int) =~= kw@);
        true
    }

    fn keyword_token(&self, a: usize, b: usize) -> (r: Option<Token>)
        requires
            self.wf(),
            a <= b <= self.input@.len(),
        ensures
            match keyword(self.input@.subrange(a as int, b as int)) {
                Some(t) => r is Some && r->0@ == t,
                None => r is None,
            },
    {
        if self.word_matches(a, b, "int") {
            Some(Token::Type(Type::INT))
        } else if self.word_matches(a, b, "fn") {
            Some(Token::Type(Type::FUNC))
        } else if self.word_matches(a, b, "return") {
            Some(Token::RET)
        } else if self.word_matches(a, b, "if") {
            Some(Token::If)
        } else if self.word_matches(a, b, "else") {
            Some(Token::Else)
        } else {
            None
        }
    }

    fn number(&self, p: usize) -> (r: Result<(Token, usize), Error>)
        requires
            self.wf(),
            p < self.input@.len(),
        ensures
            match number(self.input@, p as int) {
                Ok((t, q)) => r is Ok && r->Ok_0.0@ == t && r->Ok_0.1 == q,
                Err(e) => r == Err::<(Token, usize), Error>(e),
            },
    {
        let ghost s = self.input@;
        let len = self.input.len();
        let mut e = p;
        while e < len && is_decimal_digit(self.input[e])
            invariant
                self.wf(),
                len == s.len(),
                s == self.input@,
                p <= e <= len,
                digits_end(s, p as int) == digits_end(s, e as int),
            decreases len - e,
        {
            e = e + 1;
        }
        if e < len && self.input[e] == '.' {
            let mut f = e + 1;
            while f < len && is_decimal_digit(self.input[f])
                invariant
                    self.wf(),
                    len == s.len(),
                    s == self.input@,
                    e + 1 <= f <= len,
                    digits_end(s, e + 1) == digits_end(s, f as int),
                decreases len - f,
            {
                f = f + 1;
            }
            return Ok((Token::FLOAT(self.substring(p, f)), f));
        }
        proof {
            lemma_digits_end_bounds(s, p as int);
        }
        let ghost d = s.subrange(p as int, e as int);
        let mut v: i32 = 0;
        let mut k: usize = p;
        while k < e
            invariant
                self.wf(),
                s == self.input@,
                p <= k <= e <= s.len(),
                e == digits_end(s, p as int),
                !at(s, e as int, '.'),
                d == s.subrange(p as int, e as int),
                forall|j: int| p <= j < e ==> decimal_digit(#[trigger] s[j]),
                v as int == digits_value(s.subrange(p as int, k as int)),
                v >= 0,
            decreases e - k,
        {
            let c = self.input[k];
            let dv = (c as u32 - '0' as u32) as i32;
            assert(s.subrange(p as int, k + 1).drop_last() =~= s.subrange(p as int, k as int));
            assert(decimal_digit(s[k as int]));
            assert(digits_value(s.subrange(p as int, k + 1)) == v * 10 + dv);
            if v > (i32::MAX - dv) / 10 {
                proof {
                    assert(v * 10 + dv > i32::MAX) by (nonlinear_arith)
                        requires
                            v > (i32::MAX - dv) / 10,
                            0 <= dv <= 9,
                    ;
                    assert(d.subrange(0, k - p + 1) =~= s.subrange(p as int, k + 1));
                    assert forall|j: int| 0 <= j < d.len() implies decimal_digit(#[trigger] d[j]) by {
                        assert(d[j] == s[p + j]);
                    }
                    lemma_digits_value_grows(d, k - p + 1);
                }
                return Err(Error::IntegerTooLarge);
            }
            v = v * 10 + dv;
            k = k + 1;
        }
        assert(s.subrange(p as int, k as int) =~= d);
        Ok((Token::DIGIT(v), e))
    }

    fn symbol(&self, p: usize) -> (r: Result<(Token, usize), Error>)
        requires
            self.wf(),
            p < self.input@.len(),
        ensures
            match symbol(self.input@, p as int) {
                Ok((t, q)) => r is Ok && r->Ok_0.0@ == t && r->Ok_0.1 == q,
                Err(e) => r == Err::<(Token, usize), Error>(e),
            },
    {
        let c = self.input[p];
        let next = if p + 1 < self.input.len() {
            Some(self.input[p + 1])
        } else {
            None
        };
        let t = if c == '+' {
            Token::ADDOP(AddOp::PLUS)
        } else if c == '-' {
            if next == Some('>') {
                return Ok((Token::ARROW, p + 2));
            }
            Token::ADDOP(AddOp::MINUS)
        } else if c == '*' {
            Token::MULOP(MulOp::MULT)
        } else if c == '/' {
            Token::MULOP(MulOp::DIV)
        } else if c == '%' {
            Token::MULOP(MulOp::MODU)
        } else if c == '(' {
            Token::LPAREN
        } else if c == ')' {
            Token::RPAREN
        } else if c == '{' {
            Token::LBRACE
        } else if c == '}' {
            Token::RBRACE
        } else if c == ';' {
            Token::SEMI
        } else if c == ',' {
            Token::COMMA
        } else if c == '=' {
            if next == Some('=') {
                return Ok((Token::COMPARE(Compare::EQ), p + 2));
            }
            Token::ASSIGN
        } else if c == '<' {
            if next == Some('=') {
                return Ok((Token::COMPARE(Compare::LE), p + 2));
            }
            Token::COMPARE(Compare::LT)
        } else if c == '>' {
            if next == Some('=') {
                return Ok((Token::COMPARE(Compare::GE), p + 2));
            }
            Token::COMPARE(Compare::GT)
        } else if c == '!' && next == Some('=') {
            return Ok((Token::COMPARE(Compare::NE), p + 2));
        } else {
            return Err(Error::UnrecognizedChar(c));
        };
        Ok((t, p + 1))
    }

    /// Scans the next token into `current_token`.
    pub fn get_next_token(&mut self) -> (r: Result<(), Error>)
        requires
            old(self).wf(),
        ensures
            final(self).wf(),
            final(self).input@ == old(self).input@,
            match scan(old(self).input@, old(self).position as int) {
                Ok((t, q)) => r is Ok && final(self).current_token@ == t && final(self).position
                    == q,
                Err(e) => r == Err::<(), Error>(e),
            },
            r is Ok ==> final(self).lexed(),
            r is Err ==> *final(self) == *old(self),
    {
        let ghost s = self.input@;
        let len = self.input.len();
        let mut p = self.position;
        let mut in_comment = false;
        while p < len
            invariant
                self.wf(),
                s == self.input@,
                len == s.len(),
                p <= len,
                skip_trivia(s, p as int, in_comment) == skip_trivia(
                    s,
                    self.position as int,
                    false,
                ),
            ensures
                skip_trivia(s, p as int, in_comment) == p as int,
            decreases len - p, (if in_comment { 1int } else { 0int }),
        {
            let c = self.input[p];
            if in_comment {
                if c == '\n' {
                    in_comment = false;
                } else {
                    p = p + 1;
                }
            } else if is_whitespace(c) {
                p = p + 1;
            } else if c == '/' && p + 1 < len && self.input[p + 1] == '/' {
                p = p + 2;
                in_comment = true;
            } else {
                break;
            }
        }
        proof {
            lemma_skip_trivia_bounds(s, p as int, in_comment);
        }
        if p >= len {
            self.position = p;
            self.current_token = Token::EOF;
            return Ok(());
        }
        let c = self.input[p];
        let res = if is_decimal_digit(c) {
            self.number(p)
        } else if is_alphabetic(c) {
            let mut e = p + 1;
            while e < len && is_alphanumeric(self.input[e])
                invariant
                    self.wf(),
                    s == self.input@,
                    len == s.len(),
                    p + 1 <= e <= len,
                    word_end(s, p + 1) == word_end(s, e as int),
                decreases len - e,
            {
                e = e + 1;
            }
            match self.keyword_token(p, e) {
                Some(t) => Ok((t, e)),
                None => Ok((Token::IDENT(self.substring(p, e)), e)),
            }
        } else {
            self.symbol(p)
        };
        match res {
            Ok((t, q)) => {
                proof {
                    lemma_digits_end_bounds(s, p as int);
                    if at(s, digits_end(s, p as int), '.') {
                        lemma_digits_end_bounds(s, digits_end(s, p as int) + 1);
                    }
                    lemma_word_end_bounds(s, p + 1);
                }
                self.position = q;
                self.current_token = t;
                Ok(())
            },
            Err(e) => Err(e),
        }
    }

    /// A lexer over `input` without its leading and trailing whitespace,
    /// holding the first token. Empty input is refused.
    pub fn new(input: &str) -> (r: Result<Lexer, Error>)
        requires
            input@.len() < usize::MAX,
        ensures
            input@.len() == 0 ==> r == Err::<Lexer, Error>(Error::EmptyInput),
            input@.len() > 0 ==> match scan(trim(input@), 0) {
                Ok((t, q)) => r is Ok && r->Ok_0.wf() && r->Ok_0.input@ == trim(input@)
                    && r->Ok_0.current_token@ == t && r->Ok_0.position == q && r->Ok_0.lexed(),
                Err(e) => r == Err::<Lexer, Error>(e),
            },
    {
        let n = input.unicode_len();
        if n == 0 {
            return Err(Error::EmptyInput);
        }
        let ghost s = input@;
        let mut lo: usize = 0;
        while lo < n && is_whitespace(input.get_char(lo))
            invariant
                n == s.len(),
                s == input@,
                lo <= n,
                leading_ws(s, 0) == leading_ws(s, lo as int),
            decreases n - lo,
        {
            lo = lo + 1;
        }
        let mut hi: usize = n;
        while hi > lo && is_whitespace(input.get_char(hi - 1))
            invariant
                n == s.len(),
                s == input@,
                lo <= hi <= n,
                lo == leading_ws(s, 0),
                trailing_ws(s, lo as int, n as int) == trailing_ws(s, lo as int, hi as int),
            decreases hi - lo,
        {
            hi = hi - 1;
        }
        let ghost t = s.subrange(lo as int, hi as int);
        assert(t == trim(s));
        let mut chars: Vec<char> = Vec::new();
        let mut k: usize = lo;
        while k < hi
            invariant
                n == s.len(),
                s == input@,
                lo <= k <= hi <= n,
                chars@ == s.subrange(lo as int, k as int),
            decreases hi - k,
        {
            chars.push(input.get_char(k));
            k = k + 1;
            assert(chars@ =~= s.subrange(lo as int, k as int));
        }
        let text = String::from_str(input.substring_char(lo, hi));
        let mut lex = Lexer { input: chars, text, position: 0, current_token: Token::EOF };
        match lex.get_next_token() {
            Ok(()) => Ok(lex),
            Err(e) => Err(e),
        }
    }
}
} // verus!
