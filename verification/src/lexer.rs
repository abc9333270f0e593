//! Lexical analysis: turns source text into a sequence of spanned tokens.
//!
//! The model is [`s_tokens`]: a spec-level lexer over the source's character
//! sequence. The executable [`Lexer`] is proved to produce exactly the tokens
//! of the model. Spans are half-open character-offset ranges `[start, end)`
//! into the source.
//!
//! Whitespace is space, tab, carriage return and line feed; `//` starts a
//! line comment. A string literal has no escape processing; an unterminated
//! one extends to the end of the input (its reported span then ends one past
//! the input, as a parser-visible sign). A decimal literal that exceeds the
//! `i32` range is a lexical error at its first character.

use vstd::prelude::*;

verus! {

/// An error that occurred while lexing the source text.
#[derive(Clone, Debug, PartialEq, Eq)]
pub struct Error {
    /// The location where the lexer error occurred.
    pub location: usize,
    /// The unexpected character.
    pub char: Option<char>,
}

/// A token in the source text, emitted by the [`Lexer`].
#[derive(Clone, Debug, PartialEq, Eq)]
pub enum Token<'input> {
    // Data
    Ident(&'input str),
    StringValue(&'input str),
    DecLiteral(i32),
    // Keywords
    If,
    Else,
    Function,
    // Data types
    I32,
    Boolean,
    String,
    // true false
    True,
    False,
    // Symbols
    Bang,          // !
    BangEqual,     // !=
    Colon,         // :
    Comma,         // ,
    Equal,         // =
    EqualEqual,    // ==
    ForwardSlash,  // /
    Greater,       // >
    GreaterEqual,  // >=
    Less,          // <
    LessEqual,     // <=
    Minus,         // -
    Plus,          // +
    Semi,          // ;
    Star,          // *
    Percent,       // %
    AmpAmp,        // &&
    PipePipe,      // ||
    // Delimiters
    LParen,  // (
    RParen,  // )
    LBrace,  // {
    RBrace,  // }
}

/// Model of a [`Token`]: payloads become character sequences.
pub enum Tok {
    TIdent(Seq<char>),
    TStr(Seq<char>),
    TInt(i32),
    TIf,
    TElse,
    TFn,
    TI32,
    TBool,
    TString,
    TTrue,
    TFalse,
    TBang,
    TBangEq,
    TColon,
    TComma,
    TEq,
    TEqEq,
    TSlash,
    TGt,
    TGe,
    TLt,
    TLe,
    TMinus,
    TPlus,
    TSemi,
    TStar,
    TPercent,
    TAndAnd,
    TOrOr,
    TLParen,
    TRParen,
    TLBrace,
    TRBrace,
}

pub open spec fn tok_view<'a>(t: Token<'a>) -> Tok {
    match t {
        Token::Ident(s) => Tok::TIdent(s@),
        Token::StringValue(s) => Tok::TStr(s@),
        Token::DecLiteral(v) => Tok::TInt(v),
        Token::If => Tok::TIf,
        Token::Else => Tok::TElse,
        Token::Function => Tok::TFn,
        Token::I32 => Tok::TI32,
        Token::Boolean => Tok::TBool,
        Token::String => Tok::TString,
        Token::True => Tok::TTrue,
        Token::False => Tok::TFalse,
        Token::Bang => Tok::TBang,
        Token::BangEqual => Tok::TBangEq,
        Token::Colon => Tok::TColon,
        Token::Comma => Tok::TComma,
        Token::Equal => Tok::TEq,
        Token::EqualEqual => Tok::TEqEq,
        Token::ForwardSlash => Tok::TSlash,
        Token::Greater => Tok::TGt,
        Token::GreaterEqual => Tok::TGe,
        Token::Less => Tok::TLt,
        Token::LessEqual => Tok::TLe,
        Token::Minus => Tok::TMinus,
        Token::Plus => Tok::TPlus,
        Token::Semi => Tok::TSemi,
        Token::Star => Tok::TStar,
        Token::Percent => Tok::TPercent,
        Token::AmpAmp => Tok::TAndAnd,
        Token::PipePipe => Tok::TOrOr,
        Token::LParen => Tok::TLParen,
        Token::RParen => Tok::TRParen,
        Token::LBrace => Tok::TLBrace,
        Token::RBrace => Tok::TRBrace,
    }
}

// ---------------------------------------------------------------------------
// Character classes.
// ---------------------------------------------------------------------------

/// The characters that may form a symbol run.
pub open spec fn is_symbol_char(c: char) -> bool {
    c == '|' || c == '&' || c == '%' || c == '!' || c == ':' || c == ',' || c == '.' || c == '='
        || c == '/' || c == '>' || c == '<' || c == '-' || c == '+' || c == ';' || c == '*'
}

/// ASCII letters start an identifier.
pub open spec fn is_ident_start_char(c: char) -> bool {
    ('a' <= c && c <= 'z') || ('A' <= c && c <= 'Z')
}

/// Letters, decimal digits and underscores continue an identifier.
pub open spec fn is_ident_continue_char(c: char) -> bool {
    is_ident_start_char(c) || is_digit_char(c) || c == '_'
}

/// ASCII decimal digits.
pub open spec fn is_digit_char(c: char) -> bool {
    '0' <= c && c <= '9'
}

/// Whitespace: space, tab, carriage return, line feed.
pub open spec fn is_space_char(c: char) -> bool {
    c == ' ' || c == '\t' || c == '\r' || c == '\n'
}

/// Tells whether `ch` may be part of a symbol run.
pub fn is_symbol(ch: char) -> (r: bool)
    ensures
        r == is_symbol_char(ch),
{
    match ch {
        '|' | '&' | '%' | '!' | ':' | ',' | '.' | '=' | '/' | '>' | '<' | '-' | '+' | ';' | '*' => true,
        _ => false,
    }
}

/// Tells whether `ch` may start an identifier.
pub fn is_ident_start(ch: char) -> (r: bool)
    ensures
        r == is_ident_start_char(ch),
{
    ('a' <= ch && ch <= 'z') || ('A' <= ch && ch <= 'Z')
}

/// Tells whether `ch` may continue an identifier.
pub fn is_ident_continue(ch: char) -> (r: bool)
    ensures
        r == is_ident_continue_char(ch),
{
    is_ident_start(ch) || is_dec_digit(ch) || ch == '_'
}

/// Tells whether `ch` is a decimal digit.
pub fn is_dec_digit(ch: char) -> (r: bool)
    ensures
        r == is_digit_char(ch),
{
    '0' <= ch && ch <= '9'
}

/// Tells whether `ch` is whitespace to the lexer.
pub fn is_space(ch: char) -> (r: bool)
    ensures
        r == is_space_char(ch),
{
    ch == ' ' || ch == '\t' || ch == '\r' || ch == '\n'
}

/// A character class the scanner can run over.
#[derive(Clone, Copy, Debug, PartialEq, Eq)]
pub enum CharClass {
    Symbols,
    IdentContinue,
    Digits,
    NotQuote,
    NotNewline,
}

/// Membership in a scanning class.
pub open spec fn class_holds(class: CharClass, c: char) -> bool {
    match class {
        CharClass::Symbols => is_symbol_char(c),
        CharClass::IdentContinue => is_ident_continue_char(c),
        CharClass::Digits => is_digit_char(c),
        CharClass::NotQuote => c != '"',
        CharClass::NotNewline => c != '\n',
    }
}

fn class_matches(class: CharClass, c: char) -> (r: bool)
    ensures
        r == class_holds(class, c),
{
    match class {
        CharClass::Symbols => is_symbol(c),
        CharClass::IdentContinue => is_ident_continue(c),
        CharClass::Digits => is_dec_digit(c),
        CharClass::NotQuote => c != '"',
        CharClass::NotNewline => c != '\n',
    }
}

/// The first position at or after `from` whose character leaves the class
/// (or the end of the input).
pub open spec fn take_while_end(s: Seq<char>, from: int, class: CharClass) -> int
    decreases s.len() - from,
{
    if from < 0 || from >= s.len() {
        from
    } else if !class_holds(class, s[from]) {
        from
    } else {
        take_while_end(s, from + 1, class)
    }
}

pub proof fn lemma_take_while_bounds(s: Seq<char>, from: int, class: CharClass)
    requires
        0 <= from <= s.len(),
    ensures
        from <= take_while_end(s, from, class) <= s.len(),
        forall|j: int| from <= j < take_while_end(s, from, class) ==> class_holds(class, s[j]),
        take_while_end(s, from, class) < s.len() ==> !class_holds(
            class,
            s[take_while_end(s, from, class)],
        ),
    decreases s.len() - from,
{
    if from < s.len() && class_holds(class, s[from]) {
        lemma_take_while_bounds(s, from + 1, class);
    }
}

/// Scans from `from` while the class holds; returns the end position.
#[verifier::loop_isolation(false)]
fn scan(src: &str, from: usize, class: CharClass) -> (end: usize)
    requires
        from as int <= src@.len(),
    ensures
        end as int == take_while_end(src@, from as int, class),
        from <= end,
        end as int <= src@.len(),
{
    let len = src.unicode_len();
    let mut pos = from;
    while pos < len && class_matches(class, src.get_char(pos))
        invariant
            from <= pos <= len,
            len == src@.len(),
            take_while_end(src@, from as int, class) == take_while_end(src@, pos as int, class),
        decreases len - pos,
    {
        pos = pos + 1;
    }
    pos
}

// ---------------------------------------------------------------------------
// Decimal literals.
// ---------------------------------------------------------------------------

/// The value of a run of decimal digits.
pub open spec fn digits_val(ds: Seq<char>) -> int
    decreases ds,
{
    if ds.len() == 0 {
        0
    } else {
        digits_val(ds.drop_last()) * 10 + (ds.last() as int - '0' as int)
    }
}

proof fn lemma_digits_nonneg(ds: Seq<char>)
    requires
        forall|i: int| 0 <= i < ds.len() ==> is_digit_char(ds[i]),
    ensures
        digits_val(ds) >= 0,
    decreases ds,
{
    if ds.len() > 0 {
        lemma_digits_nonneg(ds.drop_last());
    }
}

proof fn lemma_digits_prefix_le(ds: Seq<char>, k: int)
    requires
        0 <= k <= ds.len(),
        forall|i: int| 0 <= i < ds.len() ==> is_digit_char(ds[i]),
    ensures
        digits_val(ds.subrange(0, k)) <= digits_val(ds),
    decreases ds.len() - k,
{
    if k == ds.len() {
        assert(ds.subrange(0, k) =~= ds);
    } else {
        lemma_digits_prefix_le(ds, k + 1);
        let p = ds.subrange(0, k + 1);
        assert(p.drop_last() =~= ds.subrange(0, k));
        lemma_digits_nonneg(ds.subrange(0, k));
        assert(digits_val(ds.subrange(0, k)) <= digits_val(p));
    }
}

// ---------------------------------------------------------------------------
// The spec-level lexer.
// ---------------------------------------------------------------------------

/// The exact token of a symbol run, if the run is one of the operators.
pub open spec fn s_symbol_tok(run: Seq<char>) -> Option<Tok> {
    if run.len() == 1 {
        match run[0] {
            '!' => Option::Some(Tok::TBang),
            ':' => Option::Some(Tok::TColon),
            ',' => Option::Some(Tok::TComma),
            '=' => Option::Some(Tok::TEq),
            '/' => Option::Some(Tok::TSlash),
            '>' => Option::Some(Tok::TGt),
            '<' => Option::Some(Tok::TLt),
            '-' => Option::Some(Tok::TMinus),
            '+' => Option::Some(Tok::TPlus),
            ';' => Option::Some(Tok::TSemi),
            '*' => Option::Some(Tok::TStar),
            '%' => Option::Some(Tok::TPercent),
            _ => Option::None,
        }
    } else if run.len() == 2 {
        if run[0] == '!' && run[1] == '=' {
            Option::Some(Tok::TBangEq)
        } else if run[0] == '=' && run[1] == '=' {
            Option::Some(Tok::TEqEq)
        } else if run[0] == '>' && run[1] == '=' {
            Option::Some(Tok::TGe)
        } else if run[0] == '<' && run[1] == '=' {
            Option::Some(Tok::TLe)
        } else if run[0] == '&' && run[1] == '&' {
            Option::Some(Tok::TAndAnd)
        } else if run[0] == '|' && run[1] == '|' {
            Option::Some(Tok::TOrOr)
        } else {
            Option::None
        }
    } else {
        Option::None
    }
}

/// The token of an identifier run: a keyword where it matches, an identifier
/// otherwise.
pub open spec fn s_keyword(w: Seq<char>) -> Tok {
    if w == "if"@ {
        Tok::TIf
    } else if w == "else"@ {
        Tok::TElse
    } else if w == "fn"@ {
        Tok::TFn
    } else if w == "i32"@ {
        Tok::TI32
    } else if w == "bool"@ {
        Tok::TBool
    } else if w == "String"@ {
        Tok::TString
    } else if w == "true"@ {
        Tok::TTrue
    } else if w == "false"@ {
        Tok::TFalse
    } else {
        Tok::TIdent(w)
    }
}

/// One step of the model lexer.
pub enum LexNext {
    /// End of input: no further token.
    End,
    /// The next token: its span `[start, end)` and the position to resume at.
    Next { start: int, tok: Tok, end: int, resume: int },
    /// A lexical error.
    Fail(Error),
}

/// The model lexer's next token at or after `pos`, skipping whitespace and
/// line comments.
pub open spec fn s_next(s: Seq<char>, pos: int) -> LexNext
    decreases s.len() - pos,
{
    if pos < 0 || pos >= s.len() {
        LexNext::End
    } else {
        let c = s[pos];
        if is_symbol_char(c) {
            let end = take_while_end(s, pos, CharClass::Symbols);
            let run = s.subrange(pos, end);
            if run.len() >= 2 && run[0] == '/' && run[1] == '/' {
                let nl = take_while_end(s, pos, CharClass::NotNewline);
                proof {
                    lemma_take_while_bounds(s, pos + 1, CharClass::NotNewline);
                }
                s_next(s, nl)
            } else {
                match s_symbol_tok(run) {
                    Option::Some(t) => LexNext::Next { start: pos, tok: t, end: end, resume: end },
                    Option::None => LexNext::Fail(
                        Error { location: pos as usize, char: Option::Some(c) },
                    ),
                }
            }
        } else if c == '(' {
            LexNext::Next { start: pos, tok: Tok::TLParen, end: pos + 1, resume: pos + 1 }
        } else if c == ')' {
            LexNext::Next { start: pos, tok: Tok::TRParen, end: pos + 1, resume: pos + 1 }
        } else if c == '{' {
            LexNext::Next { start: pos, tok: Tok::TLBrace, end: pos + 1, resume: pos + 1 }
        } else if c == '}' {
            LexNext::Next { start: pos, tok: Tok::TRBrace, end: pos + 1, resume: pos + 1 }
        } else if c == '"' {
            let ce = take_while_end(s, pos + 1, CharClass::NotQuote);
            LexNext::Next {
                start: pos,
                tok: Tok::TStr(s.subrange(pos + 1, ce)),
                end: ce + 1,
                resume: if ce < s.len() {
                    ce + 1
                } else {
                    s.len() as int
                },
            }
        } else if is_digit_char(c) {
            let end = take_while_end(s, pos, CharClass::Digits);
            let v = digits_val(s.subrange(pos, end));
            if v > i32::MAX {
                LexNext::Fail(Error { location: pos as usize, char: Option::Some(c) })
            } else {
                LexNext::Next { start: pos, tok: Tok::TInt(v as i32), end: end, resume: end }
            }
        } else if is_ident_start_char(c) {
            let end = take_while_end(s, pos, CharClass::IdentContinue);
            LexNext::Next { start: pos, tok: s_keyword(s.subrange(pos, end)), end: end, resume: end }
        } else if is_space_char(c) {
            s_next(s, pos + 1)
        } else {
            LexNext::Fail(Error { location: pos as usize, char: Option::Some(c) })
        }
    }
}

/// Every token the model lexer yields starts at or after `pos` and resumes
/// strictly beyond `pos`, within the input.
pub proof fn lemma_s_next_progress(s: Seq<char>, pos: int)
    requires
        0 <= pos,
    ensures
        match s_next(s, pos) {
            LexNext::Next { start, tok, end, resume } => pos <= start < resume <= s.len() && start
                < end,
            _ => true,
        },
    decreases s.len() - pos,
{
    if pos < s.len() {
        let c = s[pos];
        if is_symbol_char(c) {
            lemma_take_while_bounds(s, pos + 1, CharClass::Symbols);
            let end = take_while_end(s, pos, CharClass::Symbols);
            let run = s.subrange(pos, end);
            if run.len() >= 2 && run[0] == '/' && run[1] == '/' {
                lemma_take_while_bounds(s, pos + 1, CharClass::NotNewline);
                let nl = take_while_end(s, pos, CharClass::NotNewline);
                lemma_s_next_progress(s, nl);
            }
        } else if c == '(' || c == ')' || c == '{' || c == '}' {
        } else if c == '"' {
            lemma_take_while_bounds(s, pos + 1, CharClass::NotQuote);
        } else if is_digit_char(c) {
            lemma_take_while_bounds(s, pos + 1, CharClass::Digits);
        } else if is_ident_start_char(c) {
            lemma_take_while_bounds(s, pos + 1, CharClass::IdentContinue);
        } else if is_space_char(c) {
            lemma_s_next_progress(s, pos + 1);
        }
    }
}

/// A lexical error is located at a character of the input.
pub proof fn lemma_s_next_err_bound(s: Seq<char>, pos: int)
    requires
        0 <= pos,
        s.len() < usize::MAX,
    ensures
        s_next(s, pos) matches LexNext::Fail(e) ==> e.location < s.len(),
    decreases s.len() - pos,
{
    if pos < s.len() {
        let c = s[pos];
        if is_symbol_char(c) {
            let end = take_while_end(s, pos, CharClass::Symbols);
            let run = s.subrange(pos, end);
            if run.len() >= 2 && run[0] == '/' && run[1] == '/' {
                lemma_take_while_bounds(s, pos + 1, CharClass::NotNewline);
                let nl = take_while_end(s, pos, CharClass::NotNewline);
                lemma_s_next_err_bound(s, nl);
            }
        } else if is_space_char(c) && !(c == '(' || c == ')' || c == '{' || c == '}' || c == '"'
            || is_digit_char(c) || is_ident_start_char(c)) {
            lemma_s_next_err_bound(s, pos + 1);
        }
    }
}

/// So is the error of the whole lexing model.
pub proof fn lemma_s_tokens_err_bound(s: Seq<char>, pos: int)
    requires
        0 <= pos <= s.len(),
        s.len() < usize::MAX,
    ensures
        s_tokens(s, pos) matches Result::Err(e) ==> e.location < usize::MAX,
    decreases s.len() - pos + 1,
{
    lemma_s_next_err_bound(s, pos);
    lemma_s_next_progress(s, pos);
    match s_next(s, pos) {
        LexNext::Next { start, tok, end, resume } => {
            lemma_s_tokens_err_bound(s, resume);
        },
        _ => {},
    }
}

/// The model lexer yields at most one token per character of the input.
pub proof fn lemma_s_tokens_len(s: Seq<char>, pos: int)
    requires
        0 <= pos <= s.len(),
    ensures
        s_tokens(s, pos) matches Result::Ok(ts) ==> ts.len() <= s.len() - pos,
    decreases s.len() - pos + 1,
{
    lemma_s_next_progress(s, pos);
    match s_next(s, pos) {
        LexNext::Next { start, tok, end, resume } => {
            lemma_s_tokens_len(s, resume);
        },
        _ => {},
    }
}

/// The model lexer: all tokens from `pos` on, or the first lexical error.
pub open spec fn s_tokens(s: Seq<char>, pos: int) -> Result<Seq<(int, Tok, int)>, Error>
    decreases s.len() - pos + 1,
{
    match s_next(s, pos) {
        LexNext::End => Result::Ok(Seq::empty()),
        LexNext::Fail(e) => Result::Err(e),
        LexNext::Next { start, tok, end, resume } => {
            // The totality guard; `lemma_s_next_progress` shows it never fires.
            if pos < resume <= s.len() {
                match s_tokens(s, resume) {
                    Result::Ok(rest) => Result::Ok(seq![(start, tok, end)] + rest),
                    Result::Err(e) => Result::Err(e),
                }
            } else {
                Result::Err(Error { location: pos as usize, char: Option::None })
            }
        },
    }
}

// ---------------------------------------------------------------------------
// The executable lexer.
// ---------------------------------------------------------------------------

/// A cursor over a source string that yields [`Token`]s for the parser.
pub struct Lexer<'input> {
    src: &'input str,
    pos: usize,
}

impl<'input> Lexer<'input> {
    /// The source being lexed.
    pub closed spec fn spec_src(&self) -> Seq<char> {
        self.src@
    }

    /// The current position, in characters.
    pub closed spec fn spec_pos(&self) -> int {
        self.pos as int
    }

    /// A lexer at the start of `src`.
    pub fn new(src: &'input str) -> (r: Lexer<'input>)
        ensures
            r.spec_src() == src@,
            r.spec_pos() == 0,
    {
        Lexer { src, pos: 0 }
    }

    /// The next token: its span and the token itself, `None` at the end of
    /// the input, or the first lexical error.
    #[verifier::loop_isolation(false)]
    pub fn next(&mut self) -> (r: Option<Result<(usize, Token<'input>, usize), Error>>)
        requires
            old(self).spec_src().len() < usize::MAX,
        ensures
            final(self).spec_src() == old(self).spec_src(),
            match s_next(old(self).spec_src(), old(self).spec_pos()) {
                LexNext::End => r is None,
                LexNext::Next { start, tok, end, resume } => r matches Option::Some(
                    Result::Ok(t),
                ) && t.0 == start && tok_view(t.1) == tok && t.2 == end && final(self).spec_pos()
                    == resume,
                LexNext::Fail(e) => r matches Option::Some(Result::Err(err)) && err == e,
            },
    {
        let src = self.src;
        let len = src.unicode_len();
        if self.pos >= len {
            return None;
        }
        loop
            invariant
                self.src@ == src@,
                src@ == old(self).spec_src(),
                src@.len() < usize::MAX,
                len == src@.len(),
                self.pos <= len,
                s_next(src@, old(self).spec_pos()) == s_next(src@, self.spec_pos()),
            decreases len - self.pos,
        {
            if self.pos >= len {
                return None;
            }
            let c = src.get_char(self.pos);
            let start = self.pos;
            if is_symbol(c) {
                let end = scan(src, start, CharClass::Symbols);
                proof {
                    lemma_take_while_bounds(src@, start as int + 1, CharClass::Symbols);
                }
                let ghost run = src@.subrange(start as int, end as int);
                let l = end - start;
                if l >= 2 && src.get_char(start + 1) == '/' && c == '/' {
                    // A line comment: skip to the end of the line and go on.
                    proof {
                        lemma_take_while_bounds(src@, start as int + 1, CharClass::NotNewline);
                    }
                    let nl = scan(src, start, CharClass::NotNewline);
                    self.pos = nl;
                } else if l == 1 {
                    let t: Option<Token<'input>> = match c {
                        '!' => Some(Token::Bang),
                        ':' => Some(Token::Colon),
                        ',' => Some(Token::Comma),
                        '=' => Some(Token::Equal),
                        '/' => Some(Token::ForwardSlash),
                        '>' => Some(Token::Greater),
                        '<' => Some(Token::Less),
                        '-' => Some(Token::Minus),
                        '+' => Some(Token::Plus),
                        ';' => Some(Token::Semi),
                        '*' => Some(Token::Star),
                        '%' => Some(Token::Percent),
                        _ => None,
                    };
                    proof {
                        assert(run.len() == 1);
                        assert(run[0] == c);
                    }
                    match t {
                        Some(tok) => {
                            self.pos = end;
                            return Some(Ok((start, tok, end)));
                        },
                        None => {
                            return Some(Err(Error { location: start, char: Some(c) }));
                        },
                    }
                } else if l == 2 {
                    let c1 = src.get_char(start + 1);
                    proof {
                        assert(run.len() == 2);
                        assert(run[0] == c);
                        assert(run[1] == c1);
                    }
                    let t: Option<Token<'input>> = if c == '!' && c1 == '=' {
                        Some(Token::BangEqual)
                    } else if c == '=' && c1 == '=' {
                        Some(Token::EqualEqual)
                    } else if c == '>' && c1 == '=' {
                        Some(Token::GreaterEqual)
                    } else if c == '<' && c1 == '=' {
                        Some(Token::LessEqual)
                    } else if c == '&' && c1 == '&' {
                        Some(Token::AmpAmp)
                    } else if c == '|' && c1 == '|' {
                        Some(Token::PipePipe)
                    } else {
                        None
                    };
                    match t {
                        Some(tok) => {
                            self.pos = end;
                            return Some(Ok((start, tok, end)));
                        },
                        None => {
                            return Some(Err(Error { location: start, char: Some(c) }));
                        },
                    }
                } else {
                    proof {
                        assert(run.len() >= 3);
                    }
                    return Some(Err(Error { location: start, char: Some(c) }));
                }
            } else if c == '(' {
                self.pos = start + 1;
                return Some(Ok((start, Token::LParen, start + 1)));
            } else if c == ')' {
                self.pos = start + 1;
                return Some(Ok((start, Token::RParen, start + 1)));
            } else if c == '{' {
                self.pos = start + 1;
                return Some(Ok((start, Token::LBrace, start + 1)));
            } else if c == '}' {
                self.pos = start + 1;
                return Some(Ok((start, Token::RBrace, start + 1)));
            } else if c == '"' {
                let ce = scan(src, start + 1, CharClass::NotQuote);
                let content = src.substring_char(start + 1, ce);
                self.pos = if ce < len {
                    ce + 1
                } else {
                    len
                };
                return Some(Ok((start, Token::StringValue(content), ce + 1)));
            } else if is_dec_digit(c) {
                let end = scan(src, start, CharClass::Digits);
                proof {
                    lemma_take_while_bounds(src@, start as int, CharClass::Digits);
                }
                let ghost run = src@.subrange(start as int, end as int);
                let mut acc: i32 = 0;
                let mut j = start;
                while j < end
                    invariant
                        start <= j <= end,
                        end as int <= src@.len(),
                        end as int == take_while_end(src@, start as int, CharClass::Digits),
                        run == src@.subrange(start as int, end as int),
                        forall|i: int| start <= i < end ==> is_digit_char(src@[i]),
                        acc as int == digits_val(src@.subrange(start as int, j as int)),
                        0 <= acc,
                    decreases end - j,
                {
                    let d = (src.get_char(j) as u32) - 48;
                    let ghost pre = src@.subrange(start as int, j as int);
                    let ghost cur = src@.subrange(start as int, j as int + 1);
                    proof {
                        assert(cur.drop_last() =~= pre);
                        assert(cur.last() == src@[j as int]);
                        assert(d <= 9);
                    }
                    if acc > 214748364 || (acc == 214748364 && d > 7) {
                        proof {
                            assert(digits_val(cur) > i32::MAX);
                            assert(run.subrange(0, j as int + 1 - start) =~= cur);
                            assert(forall|i: int| 0 <= i < run.len() ==> is_digit_char(run[i]));
                            lemma_digits_prefix_le(run, j as int + 1 - start);
                            assert(digits_val(run) > i32::MAX);
                        }
                        return Some(Err(Error { location: start, char: Some(c) }));
                    }
                    acc = acc * 10 + (d as i32);
                    j = j + 1;
                }
                proof {
                    assert(src@.subrange(start as int, j as int) =~= run);
                }
                self.pos = end;
                return Some(Ok((start, Token::DecLiteral(acc), end)));
            } else if is_ident_start(c) {
                let end = scan(src, start, CharClass::IdentContinue);
                let w = src.substring_char(start, end);
                let tok: Token<'input> = if str_eq_chars(w, "if") {
                    Token::If
                } else if str_eq_chars(w, "else") {
                    Token::Else
                } else if str_eq_chars(w, "fn") {
                    Token::Function
                } else if str_eq_chars(w, "i32") {
                    Token::I32
                } else if str_eq_chars(w, "bool") {
                    Token::Boolean
                } else if str_eq_chars(w, "String") {
                    Token::String
                } else if str_eq_chars(w, "true") {
                    Token::True
                } else if str_eq_chars(w, "false") {
                    Token::False
                } else {
                    Token::Ident(w)
                };
                self.pos = end;
                return Some(Ok((start, tok, end)));
            } else if is_space(c) {
                self.pos = start + 1;
            } else {
                return Some(Err(Error { location: start, char: Some(c) }));
            }
        }
    }
}

/// Character-by-character string equality.
#[verifier::loop_isolation(false)]
pub fn str_eq_chars(a: &str, b: &str) -> (r: bool)
    ensures
        r == (a@ == b@),
{
    let la = a.unicode_len();
    let lb = b.unicode_len();
    if la != lb {
        return false;
    }
    let mut i: usize = 0;
    while i < la
        invariant
            0 <= i <= la,
            la == a@.len(),
            la == b@.len(),
            forall|j: int| 0 <= j < i ==> a@[j] == b@[j],
        decreases la - i,
    {
        if a.get_char(i) != b.get_char(i) {
            return false;
        }
        i = i + 1;
    }
    proof {
        assert(a@ =~= b@);
    }
    true
}

/// The view of a spanned token triple.
pub open spec fn triple_view<'a>(t: (usize, Token<'a>, usize)) -> (int, Tok, int) {
    (t.0 as int, tok_view(t.1), t.2 as int)
}

/// The view of a vector of spanned tokens.
pub open spec fn triples_view<'a>(s: Seq<(usize, Token<'a>, usize)>) -> Seq<(int, Tok, int)> {
    s.map_values(|t: (usize, Token<'a>, usize)| triple_view(t))
}

/// Lexes the whole source: every token in order, or the first lexical error.
#[verifier::loop_isolation(false)]
pub fn tokenize<'a>(src: &'a str) -> (r: Result<Vec<(usize, Token<'a>, usize)>, Error>)
    requires
        src@.len() < usize::MAX,
    ensures
        match r {
            Result::Ok(v) => s_tokens(src@, 0) == Result::<Seq<(int, Tok, int)>, Error>::Ok(
                triples_view(v@),
            ),
            Result::Err(e) => s_tokens(src@, 0) == Result::<Seq<(int, Tok, int)>, Error>::Err(e),
        },
{
    let mut lexer = Lexer::new(src);
    let mut out: Vec<(usize, Token<'a>, usize)> = Vec::new();
    loop
        invariant
            lexer.spec_src() == src@,
            src@.len() < usize::MAX,
            0 <= lexer.spec_pos() <= src@.len(),
            s_tokens(src@, 0) == match s_tokens(src@, lexer.spec_pos()) {
                Result::Ok(rest) => Result::<Seq<(int, Tok, int)>, Error>::Ok(
                    triples_view(out@) + rest,
                ),
                Result::Err(e) => Result::<Seq<(int, Tok, int)>, Error>::Err(e),
            },
        decreases src@.len() - lexer.spec_pos(),
    {
        let ghost pos0 = lexer.spec_pos();
        proof {
            lemma_s_next_progress(src@, pos0);
        }
        match lexer.next() {
            None => {
                proof {
                    assert(triples_view(out@) + Seq::<(int, Tok, int)>::empty() =~= triples_view(
                        out@,
                    ));
                }
                return Ok(out);
            },
            Some(Ok(t)) => {
                let ghost old_out = out@;
                out.push(t);
                proof {
                    assert(out@.drop_last() =~= old_out);
                    assert(triples_view(out@) =~= triples_view(old_out).push(triple_view(t)));
                    if let Result::Ok(rest) = s_tokens(src@, lexer.spec_pos()) {
                        assert(triples_view(old_out) + (seq![triple_view(t)] + rest)
                            =~= triples_view(out@) + rest);
                    }
                }
            },
            Some(Err(e)) => {
                return Err(e);
            },
        }
    }
}

} // verus!
