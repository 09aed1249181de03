//! The lexer: turns source characters into tokens by longest match,
//! with keywords taking precedence over identifiers of the same length.
//! The token definitions are stated as specification functions over the
//! character sequence, and the executable scanner is proved to return
//! exactly what they denote.

use vstd::prelude::*;

verus! {

/// One token of the language.
#[derive(Debug)]
pub enum Tok {
    Num(String),
    Ident(String),
    StrLit(String),
    Comment(String),
    Plus,
    Minus,
    Star,
    Slash,
    EqEq,
    NotEq,
    Gt,
    Lt,
    Assign,
    Semi,
    LParen,
    RParen,
    LBrace,
    RBrace,
    KwPrint,
    KwProc,
    KwCall,
    KwIf,
    KwElse,
}

/// The mathematical shape of a token: its text as a character sequence.
pub enum TokAbs {
    Num(Seq<char>),
    Ident(Seq<char>),
    StrLit(Seq<char>),
    Comment(Seq<char>),
    Plus,
    Minus,
    Star,
    Slash,
    EqEq,
    NotEq,
    Gt,
    Lt,
    Assign,
    Semi,
    LParen,
    RParen,
    LBrace,
    RBrace,
    KwPrint,
    KwProc,
    KwCall,
    KwIf,
    KwElse,
}

/// The abstraction of one token.
pub open spec fn tok_abs(t: Tok) -> TokAbs {
    match t {
        Tok::Num(s) => TokAbs::Num(s@),
        Tok::Ident(s) => TokAbs::Ident(s@),
        Tok::StrLit(s) => TokAbs::StrLit(s@),
        Tok::Comment(s) => TokAbs::Comment(s@),
        Tok::Plus => TokAbs::Plus,
        Tok::Minus => TokAbs::Minus,
        Tok::Star => TokAbs::Star,
        Tok::Slash => TokAbs::Slash,
        Tok::EqEq => TokAbs::EqEq,
        Tok::NotEq => TokAbs::NotEq,
        Tok::Gt => TokAbs::Gt,
        Tok::Lt => TokAbs::Lt,
        Tok::Assign => TokAbs::Assign,
        Tok::Semi => TokAbs::Semi,
        Tok::LParen => TokAbs::LParen,
        Tok::RParen => TokAbs::RParen,
        Tok::LBrace => TokAbs::LBrace,
        Tok::RBrace => TokAbs::RBrace,
        Tok::KwPrint => TokAbs::KwPrint,
        Tok::KwProc => TokAbs::KwProc,
        Tok::KwCall => TokAbs::KwCall,
        Tok::KwIf => TokAbs::KwIf,
        Tok::KwElse => TokAbs::KwElse,
    }
}

/// The abstraction of a token list with its start positions.
pub open spec fn pairs_abs(s: Seq<(Tok, usize)>) -> Seq<(TokAbs, int)>
    decreases s,
{
    if s.len() == 0 {
        Seq::empty()
    } else {
        seq![(tok_abs(s[0].0), s[0].1 as int)] + pairs_abs(s.drop_first())
    }
}

/// `pairs_abs` maps the sequence element by element.
pub proof fn lemma_pairs_abs(s: Seq<(Tok, usize)>)
    ensures
        pairs_abs(s).len() == s.len(),
        forall|i: int| 0 <= i < s.len() ==> pairs_abs(s)[i] == (tok_abs(s[i].0), s[i].1 as int),
    decreases s.len(),
{
    if s.len() > 0 {
        lemma_pairs_abs(s.drop_first());
    }
}

/// How the source text failed to parse.
#[derive(Debug, Clone, Copy, PartialEq, Eq, Structural)]
pub enum ParseError {
    /// No token starts at this character index.
    InvalidToken { at: usize },
    /// The token at this character index does not fit the grammar.
    UnrecognizedToken { at: usize },
    /// The input ended where the grammar needs more.
    UnrecognizedEof,
}

/// Whether a character beyond the seven-bit range has the Unicode
/// white-space property.
pub uninterp spec fn unicode_ws(c: char) -> bool;

/// Whether the character is white space: on the seven-bit range,
/// exactly the six characters with the Unicode White_Space property —
/// tab, line feed, vertical tab, form feed, carriage return and the
/// blank; beyond it, whatever the host's Unicode tables say.
pub open spec fn ws_char(c: char) -> bool {
    if (c as u32) < 128 {
        (9 <= c as u32 && c as u32 <= 13) || c as u32 == 32
    } else {
        unicode_ws(c)
    }
}

/// Relies on `char::is_whitespace`: the Unicode white-space property,
/// which on the seven-bit range holds of exactly the characters 9 to 13
/// and 32.
#[verifier::external_body]
pub fn is_ws(c: char) -> (r: bool)
    ensures
        r == ws_char(c),
        c as u32 >= 128 ==> r == unicode_ws(c),
{
    c.is_whitespace()
}

/// Whether the character is a decimal digit.
pub open spec fn digit(c: char) -> bool {
    48 <= c as u32 <= 57
}

/// Whether the character can start an identifier.
pub open spec fn ident_start(c: char) -> bool {
    (65 <= c as u32 && c as u32 <= 90) || (97 <= c as u32 && c as u32 <= 122) || c == '_'
}

/// Whether the character can continue an identifier.
pub open spec fn ident_continue(c: char) -> bool {
    ident_start(c) || digit(c)
}

/// The first index at or after `i` that does not hold white space.
pub open spec fn ws_end(s: Seq<char>, i: int) -> int
    decreases s.len() - i,
{
    if i >= s.len() {
        i
    } else if !ws_char(s[i]) {
        i
    } else {
        ws_end(s, i + 1)
    }
}

/// The first index at or after `i` that does not hold a digit.
pub open spec fn digits_end(s: Seq<char>, i: int) -> int
    decreases s.len() - i,
{
    if i >= s.len() {
        i
    } else if !digit(s[i]) {
        i
    } else {
        digits_end(s, i + 1)
    }
}

/// The end of the number token starting at `i`: a run of digits, and a
/// fractional part only when a point is followed by another digit.
pub open spec fn number_end(s: Seq<char>, i: int) -> int {
    let j = digits_end(s, i);
    if j < s.len() && s[j] == '.' && j + 1 < s.len() && digit(s[j + 1]) {
        digits_end(s, j + 1)
    } else {
        j
    }
}

/// The first index at or after `i` that cannot continue an identifier.
pub open spec fn ident_cont_end(s: Seq<char>, i: int) -> int
    decreases s.len() - i,
{
    if i >= s.len() {
        i
    } else if !ident_continue(s[i]) {
        i
    } else {
        ident_cont_end(s, i + 1)
    }
}

/// The end of the identifier token starting at `i`.
pub open spec fn ident_end(s: Seq<char>, i: int) -> int {
    ident_cont_end(s, i + 1)
}

/// The end of the line holding index `i`: the next line feed, or the
/// input's end.
pub open spec fn line_end(s: Seq<char>, i: int) -> int
    decreases s.len() - i,
{
    if i >= s.len() {
        i
    } else if s[i] == '\n' {
        i
    } else {
        line_end(s, i + 1)
    }
}

/// The end of the comment token whose two slashes start at `i`.
pub open spec fn comment_end(s: Seq<char>, i: int) -> int {
    line_end(s, i + 2)
}

/// The index one past the closing quote of the string literal scanned
/// from `j`, by longest match. `esc` says whether a backslash may still
/// be consuming the next character; `best` is the latest index whose
/// quote could close the literal. The scan mirrors the subset run of
/// the quoted-string automaton: a quote closes unless an escape claims
/// it, and an escape cannot span a line feed.
pub open spec fn str_end(s: Seq<char>, j: int, esc: bool, best: Option<int>) -> Option<int>
    decreases s.len() - j,
{
    if j >= s.len() {
        match best {
            Some(b) => Some(b + 1),
            Option::None => Option::None,
        }
    } else if s[j] == '"' {
        if esc {
            str_end(s, j + 1, false, Some(j))
        } else {
            Some(j + 1)
        }
    } else if s[j] == '\\' {
        str_end(s, j + 1, true, best)
    } else {
        str_end(s, j + 1, false, best)
    }
}

/// The token an identifier's text denotes: one of the five keywords at
/// an exact spelling, an identifier otherwise.
pub open spec fn word_token(tx: Seq<char>) -> TokAbs {
    if tx == "print"@ {
        TokAbs::KwPrint
    } else if tx == "proc"@ {
        TokAbs::KwProc
    } else if tx == "call"@ {
        TokAbs::KwCall
    } else if tx == "if"@ {
        TokAbs::KwIf
    } else if tx == "else"@ {
        TokAbs::KwElse
    } else {
        TokAbs::Ident(tx)
    }
}

/// The token starting at the non-white-space index `i`, with the index
/// one past it; nothing when no token starts there.
pub open spec fn token_at(s: Seq<char>, i: int) -> Option<(TokAbs, int)> {
    let c = s[i];
    if digit(c) {
        Some((TokAbs::Num(s.subrange(i, number_end(s, i))), number_end(s, i)))
    } else if ident_start(c) {
        Some((word_token(s.subrange(i, ident_end(s, i))), ident_end(s, i)))
    } else if c == '"' {
        match str_end(s, i + 1, false, Option::None) {
            Some(k) => Some((TokAbs::StrLit(s.subrange(i, k)), k)),
            Option::None => Option::None,
        }
    } else if c == '/' && i + 1 < s.len() && s[i + 1] == '/' {
        Some((TokAbs::Comment(s.subrange(i, comment_end(s, i))), comment_end(s, i)))
    } else if c == '/' {
        Some((TokAbs::Slash, i + 1))
    } else if c == '=' && i + 1 < s.len() && s[i + 1] == '=' {
        Some((TokAbs::EqEq, i + 2))
    } else if c == '=' {
        Some((TokAbs::Assign, i + 1))
    } else if c == '!' && i + 1 < s.len() && s[i + 1] == '=' {
        Some((TokAbs::NotEq, i + 2))
    } else if c == '+' {
        Some((TokAbs::Plus, i + 1))
    } else if c == '-' {
        Some((TokAbs::Minus, i + 1))
    } else if c == '*' {
        Some((TokAbs::Star, i + 1))
    } else if c == '>' {
        Some((TokAbs::Gt, i + 1))
    } else if c == '<' {
        Some((TokAbs::Lt, i + 1))
    } else if c == ';' {
        Some((TokAbs::Semi, i + 1))
    } else if c == '(' {
        Some((TokAbs::LParen, i + 1))
    } else if c == ')' {
        Some((TokAbs::RParen, i + 1))
    } else if c == '{' {
        Some((TokAbs::LBrace, i + 1))
    } else if c == '}' {
        Some((TokAbs::RBrace, i + 1))
    } else {
        Option::None
    }
}

/// What tokenizing from an index yields: the remaining tokens with
/// their start positions, or the index at which no token starts.
pub enum LexOut {
    Tokens(Seq<(TokAbs, int)>),
    Bad(int),
}

/// The tokens of the source from index `i` on, white space skipped.
/// The two inner guards can never be met — white-space skipping cannot
/// move backwards and no token is shorter than one character — and only
/// keep the definition well founded.
pub open spec fn lex_from(s: Seq<char>, i: int) -> LexOut
    decreases s.len() - i,
{
    let j = ws_end(s, i);
    if j < i || j > s.len() {
        LexOut::Bad(i)
    } else if j == s.len() {
        LexOut::Tokens(Seq::empty())
    } else {
        match token_at(s, j) {
            Option::None => LexOut::Bad(j),
            Some((t, k)) => if k <= j || k > s.len() {
                LexOut::Bad(j)
            } else {
                match lex_from(s, k) {
                    LexOut::Tokens(rest) => LexOut::Tokens(seq![(t, j)] + rest),
                    LexOut::Bad(p) => LexOut::Bad(p),
                }
            },
        }
    }
}

/// Joins already-taken tokens onto the tokenization of the rest.
pub open spec fn lex_prepend(pre: Seq<(TokAbs, int)>, out: LexOut) -> LexOut {
    match out {
        LexOut::Tokens(rest) => LexOut::Tokens(pre + rest),
        LexOut::Bad(p) => LexOut::Bad(p),
    }
}

/// Decimal digit test.
pub fn is_digit(c: char) -> (r: bool)
    ensures
        r == digit(c),
{
    let u = c as u32;
    48 <= u && u <= 57
}

/// Identifier head test.
pub fn is_ident_start(c: char) -> (r: bool)
    ensures
        r == ident_start(c),
{
    let u = c as u32;
    (65 <= u && u <= 90) || (97 <= u && u <= 122) || c == '_'
}

/// Identifier tail test.
pub fn is_ident_continue(c: char) -> (r: bool)
    ensures
        r == ident_continue(c),
{
    is_ident_start(c) || is_digit(c)
}

/// The first index at or after `i` that does not hold white space.
fn skip_ws(src: &Vec<char>, i: usize) -> (j: usize)
    requires
        i <= src@.len(),
    ensures
        i <= j <= src@.len(),
        j == ws_end(src@, i as int),
{
    let mut j = i;
    while j < src.len()
        invariant
            i <= j <= src@.len(),
            ws_end(src@, i as int) == ws_end(src@, j as int),
        decreases src@.len() - j,
    {
        if !is_ws(src[j]) {
            return j;
        }
        j = j + 1;
    }
    j
}

/// The end of the run of digits starting at `i`.
fn scan_digits(src: &Vec<char>, i: usize) -> (j: usize)
    requires
        i <= src@.len(),
    ensures
        i <= j <= src@.len(),
        j == digits_end(src@, i as int),
        forall|k: int| i <= k < j ==> digit(src@[k]),
        j < src@.len() ==> !digit(src@[j as int]),
{
    let mut j = i;
    while j < src.len()
        invariant
            i <= j <= src@.len(),
            digits_end(src@, i as int) == digits_end(src@, j as int),
            forall|k: int| i <= k < j ==> digit(src@[k]),
        decreases src@.len() - j,
    {
        if !is_digit(src[j]) {
            return j;
        }
        j = j + 1;
    }
    j
}

/// The characters of `src` from `i` up to `j`, as a string.
fn text_of(src: &Vec<char>, i: usize, j: usize) -> (s: String)
    requires
        i <= j <= src@.len(),
    ensures
        s@ == src@.subrange(i as int, j as int),
{
    let mut v: Vec<char> = Vec::new();
    let mut k = i;
    while k < j
        invariant
            i <= k <= j <= src@.len(),
            v@ == src@.subrange(i as int, k as int),
        decreases j - k,
    {
        v.push(src[k]);
        proof {
            assert(v@ =~= src@.subrange(i as int, k + 1));
        }
        k = k + 1;
    }
    crate::text::string_of_chars(&v)
}

/// The end of the number token starting at `i`.
fn scan_number(src: &Vec<char>, i: usize) -> (j: usize)
    requires
        i < src@.len(),
        digit(src@[i as int]),
    ensures
        i < j <= src@.len(),
        j == number_end(src@, i as int),
{
    let j = scan_digits(src, i);
    if j < src.len() && src[j] == '.' && j + 1 < src.len() && is_digit(src[j + 1]) {
        scan_digits(src, j + 1)
    } else {
        j
    }
}

/// The end of the identifier token starting at `i`.
fn scan_ident(src: &Vec<char>, i: usize) -> (j: usize)
    requires
        i < src@.len(),
        ident_start(src@[i as int]),
    ensures
        i < j <= src@.len(),
        j == ident_end(src@, i as int),
{
    let n = src.len();
    let mut j = i + 1;
    while j < n
        invariant
            n == src@.len(),
            i < j <= src@.len(),
            ident_cont_end(src@, i + 1) == ident_cont_end(src@, j as int),
        decreases src@.len() - j,
    {
        if !is_ident_continue(src[j]) {
            return j;
        }
        j = j + 1;
    }
    j
}

/// The end of the string literal starting at the quote at `i`, by
/// longest match: an escaping backslash may hide a quote, and the
/// longest run that still ends on an unconsumed quote wins. Yields the
/// index one past the closing quote, or the error when no quote closes
/// the literal.
fn scan_string(src: &Vec<char>, i: usize) -> (r: Result<usize, ParseError>)
    requires
        i < src@.len(),
        src@[i as int] == '"',
    ensures
        match r {
            Ok(j) => i + 1 < j <= src@.len() && str_end(src@, i + 1, false, Option::None) == Some(
                j as int,
            ),
            Err(e) => e == (ParseError::InvalidToken { at: i }) && str_end(
                src@,
                i + 1,
                false,
                Option::None,
            ) is None,
        },
{
    let n = src.len();
    let mut j = i + 1;
    let mut esc = false;
    let mut has_best = false;
    let mut best: usize = 0;
    while j < n
        invariant
            n == src@.len(),
            i + 1 <= j <= n,
            has_best ==> i + 1 <= best < j,
            str_end(src@, i + 1, false, Option::None) == str_end(
                src@,
                j as int,
                esc,
                if has_best {
                    Some(best as int)
                } else {
                    Option::None
                },
            ),
        decreases n - j,
    {
        let c = src[j];
        if c == '"' {
            if esc {
                has_best = true;
                best = j;
                esc = false;
                j = j + 1;
            } else {
                return Ok(j + 1);
            }
        } else if c == '\\' {
            esc = true;
            j = j + 1;
        } else {
            esc = false;
            j = j + 1;
        }
    }
    if has_best {
        Ok(best + 1)
    } else {
        Err(ParseError::InvalidToken { at: i })
    }
}

/// The end of the comment token starting at the two slashes at `i`.
fn scan_comment(src: &Vec<char>, i: usize) -> (j: usize)
    requires
        i + 2 <= src@.len(),
    ensures
        i + 2 <= j <= src@.len(),
        j == comment_end(src@, i as int),
{
    let n = src.len();
    let mut j = i + 2;
    while j < n
        invariant
            n == src@.len(),
            i + 2 <= j <= src@.len(),
            line_end(src@, i + 2) == line_end(src@, j as int),
        decreases src@.len() - j,
    {
        if src[j] == '\n' {
            return j;
        }
        j = j + 1;
    }
    j
}

/// Turns an identifier's text into its token: the five keywords take
/// precedence over an identifier of the same spelling.
fn keyword_or_ident(text: String) -> (t: Tok)
    ensures
        tok_abs(t) == word_token(text@),
{
    if text == String::from_str("print") {
        Tok::KwPrint
    } else if text == String::from_str("proc") {
        Tok::KwProc
    } else if text == String::from_str("call") {
        Tok::KwCall
    } else if text == String::from_str("if") {
        Tok::KwIf
    } else if text == String::from_str("else") {
        Tok::KwElse
    } else {
        Tok::Ident(text)
    }
}

/// The token matcher built from the language's fixed token definitions.
pub struct TokenMatcher {}

impl TokenMatcher {
    /// The next token at `i`, which must not hold white space, and the
    /// index just past it.
    fn next_token(&self, src: &Vec<char>, i: usize) -> (r: Result<(Tok, usize), ParseError>)
        requires
            i < src@.len(),
        ensures
            match r {
                Ok(p) => i < p.1 <= src@.len() && token_at(src@, i as int) == Some(
                    (tok_abs(p.0), p.1 as int),
                ),
                Err(e) => e == (ParseError::InvalidToken { at: i }) && token_at(
                    src@,
                    i as int,
                ) is None,
            },
    {
        let n = src.len();
        let c = src[i];
        if is_digit(c) {
            let j = scan_number(src, i);
            Ok((Tok::Num(text_of(src, i, j)), j))
        } else if is_ident_start(c) {
            let j = scan_ident(src, i);
            Ok((keyword_or_ident(text_of(src, i, j)), j))
        } else if c == '"' {
            match scan_string(src, i) {
                Ok(j) => Ok((Tok::StrLit(text_of(src, i, j)), j)),
                Err(e) => Err(e),
            }
        } else if c == '/' && i + 1 < n && src[i + 1] == '/' {
            let j = scan_comment(src, i);
            Ok((Tok::Comment(text_of(src, i, j)), j))
        } else if c == '/' {
            Ok((Tok::Slash, i + 1))
        } else if c == '=' && i + 1 < n && src[i + 1] == '=' {
            Ok((Tok::EqEq, i + 2))
        } else if c == '=' {
            Ok((Tok::Assign, i + 1))
        } else if c == '!' && i + 1 < n && src[i + 1] == '=' {
            Ok((Tok::NotEq, i + 2))
        } else if c == '+' {
            Ok((Tok::Plus, i + 1))
        } else if c == '-' {
            Ok((Tok::Minus, i + 1))
        } else if c == '*' {
            Ok((Tok::Star, i + 1))
        } else if c == '>' {
            Ok((Tok::Gt, i + 1))
        } else if c == '<' {
            Ok((Tok::Lt, i + 1))
        } else if c == ';' {
            Ok((Tok::Semi, i + 1))
        } else if c == '(' {
            Ok((Tok::LParen, i + 1))
        } else if c == ')' {
            Ok((Tok::RParen, i + 1))
        } else if c == '{' {
            Ok((Tok::LBrace, i + 1))
        } else if c == '}' {
            Ok((Tok::RBrace, i + 1))
        } else {
            Err(ParseError::InvalidToken { at: i })
        }
    }

    /// Every token of the source, each with the character index where it
    /// starts, exactly as the token definitions denote; on failure, the
    /// index at which no token starts.
    pub fn tokenize(&self, src: &Vec<char>) -> (r: Result<Vec<(Tok, usize)>, ParseError>)
        ensures
            match r {
                Ok(toks) => lex_from(src@, 0) == LexOut::Tokens(pairs_abs(toks@)),
                Err(e) => (lex_from(src@, 0) matches LexOut::Bad(p) && e == (ParseError::InvalidToken {
                    at: p as usize,
                })),
            },
    {
        let mut toks: Vec<(Tok, usize)> = Vec::new();
        let mut i: usize = 0;
        proof {
            lex_prepend_neutral(lex_from(src@, 0));
        }
        while i < src.len()
            invariant
                i <= src@.len(),
                lex_from(src@, 0) == lex_prepend(pairs_abs(toks@), lex_from(src@, i as int)),
            decreases src@.len() - i,
        {
            let ghost i0 = i as int;
            i = skip_ws(src, i);
            if i >= src.len() {
                proof {
                    assert(lex_from(src@, i0) == LexOut::Tokens(Seq::<(TokAbs, int)>::empty()));
                    assert(pairs_abs(toks@) + Seq::<(TokAbs, int)>::empty() =~= pairs_abs(toks@));
                }
                return Ok(toks);
            }
            match self.next_token(src, i) {
                Ok((t, j)) => {
                    proof {
                        assert(lex_from(src@, i0) == lex_prepend(
                            seq![(tok_abs(t), i as int)],
                            lex_from(src@, j as int),
                        ));
                        lex_prepend_join(
                            pairs_abs(toks@),
                            seq![(tok_abs(t), i as int)],
                            lex_from(src@, j as int),
                        );
                        lemma_pairs_push(toks@, (t, i));
                    }
                    toks.push((t, i));
                    i = j;
                },
                Err(e) => {
                    proof {
                        assert(lex_from(src@, i0) == LexOut::Bad(i as int));
                    }
                    return Err(e);
                },
            }
        }
        proof {
            assert(lex_from(src@, i as int) == LexOut::Tokens(Seq::<(TokAbs, int)>::empty()));
            assert(pairs_abs(toks@) + Seq::<(TokAbs, int)>::empty() =~= pairs_abs(toks@));
        }
        Ok(toks)
    }
}

/// Prepending nothing changes nothing.
proof fn lex_prepend_neutral(out: LexOut)
    ensures
        lex_prepend(Seq::empty(), out) == out,
{
    match out {
        LexOut::Tokens(rest) => {
            assert(Seq::<(TokAbs, int)>::empty() + rest =~= rest);
        },
        LexOut::Bad(_) => {},
    }
}

/// Prepending twice is prepending the joined prefix.
proof fn lex_prepend_join(a: Seq<(TokAbs, int)>, b: Seq<(TokAbs, int)>, out: LexOut)
    ensures
        lex_prepend(a, lex_prepend(b, out)) == lex_prepend(a + b, out),
{
    match out {
        LexOut::Tokens(rest) => {
            assert(a + (b + rest) =~= (a + b) + rest);
        },
        LexOut::Bad(_) => {},
    }
}

/// Abstraction of a pushed pair.
proof fn lemma_pairs_push(s: Seq<(Tok, usize)>, p: (Tok, usize))
    ensures
        pairs_abs(s.push(p)) == pairs_abs(s) + seq![(tok_abs(p.0), p.1 as int)],
    decreases s.len(),
{
    if s.len() == 0 {
        assert(s.push(p)[0] == p);
        assert(s.push(p).drop_first() =~= Seq::<(Tok, usize)>::empty());
        assert(s.push(p).len() == 1);
        assert(pairs_abs(s.push(p)) == seq![(tok_abs(s.push(p)[0].0), s.push(p)[0].1 as int)]
            + pairs_abs(s.push(p).drop_first()));
        assert(pairs_abs(Seq::<(Tok, usize)>::empty()) == Seq::<(TokAbs, int)>::empty());
        assert(pairs_abs(s.push(p).drop_first()) == Seq::<(TokAbs, int)>::empty());
        assert(tok_abs(s.push(p)[0].0) == tok_abs(p.0));
        assert(pairs_abs(s.push(p)) =~~= pairs_abs(s) + seq![(tok_abs(p.0), p.1 as int)]);
    } else {
        assert(s.push(p)[0] == s[0]);
        assert(s.push(p).drop_first() =~= s.drop_first().push(p));
        lemma_pairs_push(s.drop_first(), p);
        assert(pairs_abs(s.push(p)) =~~= pairs_abs(s) + seq![(tok_abs(p.0), p.1 as int)]);
    }
}

} // verus!
