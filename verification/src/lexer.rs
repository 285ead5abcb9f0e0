//! The lexical scanner: turns source text into the token stream the parser
//! pulls from, one token per call, with an end-of-stream sentinel. The
//! whole scan is specified by `lex_next` over the character sequence and a
//! cursor position.
use vstd::prelude::*;

use crate::text::push_char;
use crate::token::{Token, TokenView};

verus! {

/// The character at a position, with a NUL standing for every position
/// outside the text (the scanner's end-of-input mark).
pub open spec fn char_at(s: Seq<char>, i: int) -> char {
    if 0 <= i < s.len() {
        s[i]
    } else {
        '\u{0}'
    }
}

/// One step forward, never past the end of the text.
pub open spec fn adv(s: Seq<char>, p: int) -> int {
    if p < s.len() {
        p + 1
    } else {
        s.len() as int
    }
}

/// Whitespace, as the scanner skips it.
pub open spec fn is_ws_char(c: char) -> bool {
    c == ' ' || c == '\t' || c == '\n' || c == '\r'
}

/// A character that may form an identifier: an ASCII letter or underscore.
pub open spec fn is_letter_char(c: char) -> bool {
    (97 <= c as u32 && c as u32 <= 122) || (65 <= c as u32 && c as u32 <= 90) || c as u32 == 95
}

/// An ASCII decimal digit.
pub open spec fn is_digit_char(c: char) -> bool {
    48 <= c as u32 && c as u32 <= 57
}

/// A character that may continue an identifier: a letter, an underscore or
/// a digit (an identifier's first character must still be a letter or
/// underscore).
pub open spec fn is_ident_char(c: char) -> bool {
    is_letter_char(c) || is_digit_char(c)
}

/// The first position at or after `p` that holds no whitespace.
pub open spec fn skip_ws_pos(s: Seq<char>, p: int) -> int
    decreases s.len() - p,
{
    if 0 <= p < s.len() && is_ws_char(s[p]) {
        skip_ws_pos(s, p + 1)
    } else {
        p
    }
}

/// `skip_ws_pos` only moves forward, at most to the end of the text.
pub proof fn lemma_skip_ws_pos(s: Seq<char>, p: int)
    requires
        0 <= p <= s.len(),
    ensures
        p <= skip_ws_pos(s, p) <= s.len(),
    decreases s.len() - p,
{
    if p < s.len() && is_ws_char(s[p]) {
        lemma_skip_ws_pos(s, p + 1);
    }
}

/// The first position at or after `p` that holds no identifier character.
pub open spec fn scan_ident(s: Seq<char>, p: int) -> int
    decreases s.len() - p,
{
    if 0 <= p < s.len() && is_ident_char(s[p]) {
        scan_ident(s, p + 1)
    } else {
        p
    }
}

/// `scan_ident` only moves forward, at most to the end of the text.
pub proof fn lemma_scan_ident(s: Seq<char>, p: int)
    requires
        0 <= p <= s.len(),
    ensures
        p <= scan_ident(s, p) <= s.len(),
    decreases s.len() - p,
{
    if p < s.len() && is_ident_char(s[p]) {
        lemma_scan_ident(s, p + 1);
    }
}

/// The first position at or after `p` that holds no digit.
pub open spec fn scan_digits(s: Seq<char>, p: int) -> int
    decreases s.len() - p,
{
    if 0 <= p < s.len() && is_digit_char(s[p]) {
        scan_digits(s, p + 1)
    } else {
        p
    }
}

/// `scan_digits` only moves forward, at most to the end of the text.
pub proof fn lemma_scan_digits(s: Seq<char>, p: int)
    requires
        0 <= p <= s.len(),
    ensures
        p <= scan_digits(s, p) <= s.len(),
    decreases s.len() - p,
{
    if p < s.len() && is_digit_char(s[p]) {
        lemma_scan_digits(s, p + 1);
    }
}

/// The numeric value of a digit run, most significant digit first.
pub open spec fn digits_val(d: Seq<char>) -> nat
    decreases d,
{
    if d.len() == 0 {
        0
    } else {
        digits_val(d.drop_last()) * 10 + ((d.last() as int - 48) as nat)
    }
}

/// The decimal rendering of a non-negative integer consists of digits
/// alone.
pub proof fn lemma_dec_digits_are_digits(n: nat)
    ensures
        crate::text::dec_digits(n).len() >= 1,
        forall|i: int|
            0 <= i < crate::text::dec_digits(n).len() ==> is_digit_char(
                #[trigger] crate::text::dec_digits(n)[i],
            ),
    decreases n,
{
    if n >= 10 {
        lemma_dec_digits_are_digits(n / 10);
    }
}

/// Scanning the decimal rendering of a non-negative integer reads back the
/// same value.
pub proof fn lemma_digits_val_of_dec(n: nat)
    ensures
        digits_val(crate::text::dec_digits(n)) == n,
    decreases n,
{
    let d = crate::text::dec_digits(n);
    if n < 10 {
        crate::text::lemma_digit_char_value(n as int);
        assert(d == seq![crate::text::digit_char(n as int)]);
        assert(d.drop_last() =~= Seq::<char>::empty());
        assert(digits_val(d.drop_last()) == 0);
        assert(d.last() as int == 48 + n);
        assert(digits_val(d) == n);
    } else {
        lemma_digits_val_of_dec(n / 10);
        crate::text::lemma_digit_char_value((n % 10) as int);
        assert(d.drop_last() =~= crate::text::dec_digits(n / 10));
        assert(d.last() == crate::text::digit_char((n % 10) as int));
        assert(d.last() as int == 48 + (n % 10));
        assert(digits_val(d) == digits_val(crate::text::dec_digits(n / 10)) * 10 + (n % 10));
        assert(digits_val(d) == (n / 10) * 10 + (n % 10));
        vstd::arithmetic::div_mod::lemma_fundamental_div_mod(n as int, 10);
        assert(n == (n / 10) * 10 + (n % 10));
    }
}

/// A digit run ends exactly where the digits end.
pub proof fn lemma_scan_digits_run(s: Seq<char>, p: int, q: int)
    requires
        0 <= p <= q <= s.len(),
        forall|k: int| p <= k < q ==> is_digit_char(#[trigger] s[k]),
        q == s.len() || !is_digit_char(s[q]),
    ensures
        scan_digits(s, p) == q,
    decreases q - p,
{
    if p < q {
        lemma_scan_digits_run(s, p + 1, q);
    }
}

/// An identifier run ends exactly where the identifier characters end.
pub proof fn lemma_scan_ident_run(s: Seq<char>, p: int, q: int)
    requires
        0 <= p <= q <= s.len(),
        forall|k: int| p <= k < q ==> is_ident_char(#[trigger] s[k]),
        q == s.len() || !is_ident_char(s[q]),
    ensures
        scan_ident(s, p) == q,
    decreases q - p,
{
    if p < q {
        lemma_scan_ident_run(s, p + 1, q);
    }
}

/// The token a completed identifier stands for: a keyword where the name is
/// one, else the identifier itself.
pub open spec fn keyword_token(name: Seq<char>) -> TokenView {
    if name == "fn"@ {
        TokenView::Function
    } else if name == "let"@ {
        TokenView::Let
    } else if name == "true"@ {
        TokenView::True
    } else if name == "false"@ {
        TokenView::False
    } else if name == "if"@ {
        TokenView::If
    } else if name == "else"@ {
        TokenView::Else
    } else if name == "return"@ {
        TokenView::Return
    } else {
        TokenView::Identifier(name)
    }
}

/// The next token of the text starting at position `p`, and the position
/// just past it: skip whitespace, then dispatch on the first character. An
/// integer literal that exceeds the 32-bit range, or a character that starts
/// no token, scans as `Illegal`.
pub open spec fn lex_next(s: Seq<char>, p: int) -> (TokenView, int) {
    let q = skip_ws_pos(s, p);
    let c = char_at(s, q);
    if c == '=' {
        if char_at(s, q + 1) == '=' {
            (TokenView::Equal, adv(s, adv(s, q)))
        } else {
            (TokenView::Assign, adv(s, q))
        }
    } else if c == ';' {
        (TokenView::Semicolon, adv(s, q))
    } else if c == '(' {
        (TokenView::Lparentheses, adv(s, q))
    } else if c == ')' {
        (TokenView::Rparentheses, adv(s, q))
    } else if c == ',' {
        (TokenView::Comma, adv(s, q))
    } else if c == '+' {
        (TokenView::Plus, adv(s, q))
    } else if c == '-' {
        (TokenView::Minus, adv(s, q))
    } else if c == '!' {
        if char_at(s, q + 1) == '=' {
            (TokenView::NotEqual, adv(s, adv(s, q)))
        } else {
            (TokenView::Exclamation, adv(s, q))
        }
    } else if c == '/' {
        (TokenView::Slash, adv(s, q))
    } else if c == '*' {
        (TokenView::Asterisk, adv(s, q))
    } else if c == '<' {
        (TokenView::LessThan, adv(s, q))
    } else if c == '>' {
        (TokenView::GreaterThan, adv(s, q))
    } else if c == '{' {
        (TokenView::Lbrace, adv(s, q))
    } else if c == '}' {
        (TokenView::Rbrace, adv(s, q))
    } else if c == '\u{0}' {
        (TokenView::EndOfFile, adv(s, q))
    } else if is_letter_char(c) {
        let end = scan_ident(s, q);
        (keyword_token(s.subrange(q, end)), end)
    } else if is_digit_char(c) {
        let end = scan_digits(s, q);
        let v = digits_val(s.subrange(q, end));
        (
            if v <= 2147483647 {
                TokenView::Integer(v as i32)
            } else {
                TokenView::Illegal
            },
            end,
        )
    } else {
        (TokenView::Illegal, adv(s, q))
    }
}

/// One scan step stays within the text and, unless it reports end of
/// stream, consumes at least one character.
pub proof fn lemma_lex_next_bounds(s: Seq<char>, p: int)
    requires
        0 <= p <= s.len(),
    ensures
        p <= lex_next(s, p).1 <= s.len(),
        !(lex_next(s, p).0 is EndOfFile) ==> lex_next(s, p).1 > p,
{
    lemma_skip_ws_pos(s, p);
    let q = skip_ws_pos(s, p);
    let c = char_at(s, q);
    if is_letter_char(c) {
        assert(q < s.len());
        lemma_scan_ident(s, q + 1);
        assert(scan_ident(s, q) == scan_ident(s, q + 1));
    } else if is_digit_char(c) {
        assert(q < s.len());
        lemma_scan_digits(s, q + 1);
        assert(scan_digits(s, q) == scan_digits(s, q + 1));
    }
}

/// All the tokens of the text from position `p` on, ending with the one
/// end-of-stream sentinel.
pub open spec fn lex_all(s: Seq<char>, p: int) -> Seq<TokenView>
    decreases s.len() - p
        when 0 <= p <= s.len()
        via lex_all_decreases
{
    let (t, p2) = lex_next(s, p);
    if t is EndOfFile {
        seq![TokenView::EndOfFile]
    } else {
        seq![t] + lex_all(s, p2)
    }
}

#[via_fn]
proof fn lex_all_decreases(s: Seq<char>, p: int) {
    lemma_lex_next_bounds(s, p);
}

/// The scanner: the source text as characters and a cursor.
pub struct Lexer {
    chars: Vec<char>,
    pos: usize,
}

impl View for Lexer {
    type V = (Seq<char>, int);

    closed spec fn view(&self) -> (Seq<char>, int) {
        (self.chars@, self.pos as int)
    }
}

impl Lexer {
    /// The cursor never stands past the end of the text.
    pub open spec fn wf(&self) -> bool {
        0 <= self@.1 <= self@.0.len()
    }

    /// A scanner over the given source text, cursor at the start.
    pub fn new(input: &str) -> (r: Lexer)
        ensures
            r@.0 == input@,
            r@.1 == 0,
            r.wf(),
    {
        let n = input.unicode_len();
        let mut chars: Vec<char> = Vec::new();
        let mut i: usize = 0;
        while i < n
            invariant
                n == input@.len(),
                i <= n,
                chars@ =~= input@.subrange(0, i as int),
            decreases n - i,
        {
            let c = input.get_char(i);
            chars.push(c);
            proof {
                assert(chars@ =~= input@.subrange(0, i + 1));
            }
            i = i + 1;
        }
        proof {
            assert(chars@ =~= input@);
        }
        Lexer { chars, pos: 0 }
    }

    fn cur_char(&self) -> (c: char)
        ensures
            c == char_at(self@.0, self@.1),
    {
        if self.pos < self.chars.len() {
            self.chars[self.pos]
        } else {
            '\u{0}'
        }
    }

    fn peek_char(&self) -> (c: char)
        ensures
            c == char_at(self@.0, self@.1 + 1),
    {
        if self.pos < self.chars.len() && self.pos + 1 < self.chars.len() {
            self.chars[self.pos + 1]
        } else {
            '\u{0}'
        }
    }

    fn seek_char(&mut self)
        requires
            old(self).wf(),
        ensures
            final(self)@.0 == old(self)@.0,
            final(self)@.1 == adv(old(self)@.0, old(self)@.1),
            final(self).wf(),
    {
        if self.pos < self.chars.len() {
            self.pos = self.pos + 1;
        }
    }

    fn skip_whitespace(&mut self)
        requires
            old(self).wf(),
        ensures
            final(self)@.0 == old(self)@.0,
            final(self)@.1 == skip_ws_pos(old(self)@.0, old(self)@.1),
            final(self).wf(),
    {
        let ghost s = self@.0;
        let ghost p0 = self@.1;
        let mut c = self.cur_char();
        while c == ' ' || c == '\t' || c == '\n' || c == '\r'
            invariant
                self@.0 == s,
                0 <= self@.1 <= s.len(),
                c == char_at(s, self@.1),
                skip_ws_pos(s, p0) == skip_ws_pos(s, self@.1),
            decreases s.len() - self@.1,
        {
            proof {
                vstd::std_specs::vec::axiom_spec_len(&self.chars);
                assert(self@.1 < s.len());
            }
            self.pos = self.pos + 1;
            c = self.cur_char();
        }
    }

    fn read_identifier(&mut self) -> (name: String)
        requires
            old(self).wf(),
        ensures
            final(self)@.0 == old(self)@.0,
            final(self)@.1 == scan_ident(old(self)@.0, old(self)@.1),
            name@ == old(self)@.0.subrange(old(self)@.1, scan_ident(old(self)@.0, old(self)@.1)),
            final(self).wf(),
    {
        let ghost s = self@.0;
        let ghost p0 = self@.1;
        let mut name = String::new();
        let mut c = self.cur_char();
        while is_letter(c) || is_digit(c)
            invariant
                self@.0 == s,
                0 <= p0 <= self@.1 <= s.len(),
                c == char_at(s, self@.1),
                scan_ident(s, p0) == scan_ident(s, self@.1),
                name@ =~= s.subrange(p0, self@.1),
            decreases s.len() - self@.1,
        {
            proof {
                vstd::std_specs::vec::axiom_spec_len(&self.chars);
                assert(self@.1 < s.len());
            }
            push_char(&mut name, c);
            self.pos = self.pos + 1;
            proof {
                assert(name@ =~= s.subrange(p0, self@.1));
            }
            c = self.cur_char();
        }
        proof {
            assert(scan_ident(s, self@.1) == self@.1);
        }
        name
    }

    fn read_number(&mut self) -> (t: Token)
        requires
            old(self).wf(),
        ensures
            final(self)@.0 == old(self)@.0,
            final(self)@.1 == scan_digits(old(self)@.0, old(self)@.1),
            t@ == ({
                let v = digits_val(
                    old(self)@.0.subrange(old(self)@.1, scan_digits(old(self)@.0, old(self)@.1)),
                );
                if v <= 2147483647 {
                    TokenView::Integer(v as i32)
                } else {
                    TokenView::Illegal
                }
            }),
            final(self).wf(),
    {
        let ghost s = self@.0;
        let ghost p0 = self@.1;
        let mut val: u64 = 0;
        let mut too_big: bool = false;
        let mut c = self.cur_char();
        while is_digit(c)
            invariant
                self@.0 == s,
                0 <= p0 <= self@.1 <= s.len(),
                c == char_at(s, self@.1),
                scan_digits(s, p0) == scan_digits(s, self@.1),
                !too_big ==> val == digits_val(s.subrange(p0, self@.1)) && val <= 2147483647,
                too_big ==> digits_val(s.subrange(p0, self@.1)) > 2147483647,
            decreases s.len() - self@.1,
        {
            proof {
                vstd::std_specs::vec::axiom_spec_len(&self.chars);
                assert(self@.1 < s.len());
            }
            let d: u64 = (c as u32 - 48) as u64;
            let ghost before = s.subrange(p0, self@.1);
            proof {
                assert(s.subrange(p0, self@.1 + 1).drop_last() =~= before);
                assert(s.subrange(p0, self@.1 + 1).last() == s[self@.1]);
            }
            if !too_big {
                let next = val * 10 + d;
                if next <= 2147483647 {
                    val = next;
                } else {
                    too_big = true;
                }
            }
            self.pos = self.pos + 1;
            c = self.cur_char();
        }
        proof {
            assert(scan_digits(s, self@.1) == self@.1);
        }
        if too_big {
            Token::Illegal
        } else {
            Token::Integer(val as i32)
        }
    }

    fn lookup_identifier(name: String) -> (t: Token)
        ensures
            t@ == keyword_token(name@),
    {
        if name == String::from_str("fn") {
            Token::Function
        } else if name == String::from_str("let") {
            Token::Let
        } else if name == String::from_str("true") {
            Token::True
        } else if name == String::from_str("false") {
            Token::False
        } else if name == String::from_str("if") {
            Token::If
        } else if name == String::from_str("else") {
            Token::Else
        } else if name == String::from_str("return") {
            Token::Return
        } else {
            Token::Identifier(name)
        }
    }

    /// Scans and returns the next token, advancing the cursor past it. At
    /// the end of the text it returns the end-of-stream sentinel, again and
    /// again.
    pub fn next_token(&mut self) -> (t: Token)
        requires
            old(self).wf(),
        ensures
            final(self)@.0 == old(self)@.0,
            t@ == lex_next(old(self)@.0, old(self)@.1).0,
            final(self)@.1 == lex_next(old(self)@.0, old(self)@.1).1,
            final(self).wf(),
    {
        let ghost s = self@.0;
        let ghost p0 = self@.1;
        self.skip_whitespace();
        proof {
            lemma_skip_ws_pos(s, p0);
        }
        let c = self.cur_char();
        let token: Token;
        if c == '=' {
            if self.peek_char() == '=' {
                self.seek_char();
                token = Token::Equal;
            } else {
                token = Token::Assign;
            }
        } else if c == ';' {
            token = Token::Semicolon;
        } else if c == '(' {
            token = Token::Lparentheses;
        } else if c == ')' {
            token = Token::Rparentheses;
        } else if c == ',' {
            token = Token::Comma;
        } else if c == '+' {
            token = Token::Plus;
        } else if c == '-' {
            token = Token::Minus;
        } else if c == '!' {
            if self.peek_char() == '=' {
                self.seek_char();
                token = Token::NotEqual;
            } else {
                token = Token::Exclamation;
            }
        } else if c == '/' {
            token = Token::Slash;
        } else if c == '*' {
            token = Token::Asterisk;
        } else if c == '<' {
            token = Token::LessThan;
        } else if c == '>' {
            token = Token::GreaterThan;
        } else if c == '{' {
            token = Token::Lbrace;
        } else if c == '}' {
            token = Token::Rbrace;
        } else if c == '\u{0}' {
            token = Token::EndOfFile;
        } else if is_letter(c) {
            let name = self.read_identifier();
            return Lexer::lookup_identifier(name);
        } else if is_digit(c) {
            return self.read_number();
        } else {
            token = Token::Illegal;
        }
        self.seek_char();
        token
    }
}

/// Decides whether the character is an ASCII decimal digit.
fn is_digit(ch: char) -> (r: bool)
    ensures
        r == is_digit_char(ch),
{
    let n = ch as u32;
    48 <= n && n <= 57
}

/// Decides whether the character may form an identifier.
fn is_letter(ch: char) -> (r: bool)
    ensures
        r == is_letter_char(ch),
{
    let n = ch as u32;
    let is_lower_alpha = 97 <= n && n <= 122;
    let is_upper_alpha = 65 <= n && n <= 90;
    let is_under_score = n == 95;
    is_lower_alpha || is_upper_alpha || is_under_score
}

} // verus!
