use vstd::prelude::*;

use crate::text::{chars_of, decimal, push_decimal, push_range, push_str, string_from_chars};
use crate::token::{lemma_tokens_view_push, keyword_lookup, keyword_type, spelling, token_repr, tokens_view, Token, TokenType, TokenV};

verus! {

broadcast use vstd::string::group_string_axioms;

/// What can go wrong while scanning a line.
#[derive(Clone, Copy, Debug, PartialEq, Eq, Structural)]
pub enum ScannerError {
    UnexpectedCharacter { c: char },
    UnterminatedString,
}

impl ScannerError {
    /// The message that describes the error.
    pub open spec fn spec_message(self) -> Seq<char> {
        match self {
            ScannerError::UnexpectedCharacter { c } => "Unexpected character: "@ + seq![c],
            ScannerError::UnterminatedString => "Unterminated string."@,
        }
    }

    pub fn message(&self) -> (r: String)
        ensures
            r@ == self.spec_message(),
    {
        match self {
            ScannerError::UnexpectedCharacter { c } => {
                let mut v: Vec<char> = Vec::new();
                push_str(&mut v, "Unexpected character: ");
                v.push(*c);
                string_from_chars(v)
            },
            ScannerError::UnterminatedString => String::from_str("Unterminated string."),
        }
    }
}

// ----------------------------------------------------------------------------
// The lexical rules, as mathematical functions over the source characters.
// ----------------------------------------------------------------------------
pub open spec fn is_digit(c: char) -> bool {
    '0' <= c <= '9'
}

pub open spec fn is_alpha(c: char) -> bool {
    ('a' <= c <= 'z') || ('A' <= c <= 'Z') || c == '_'
}

pub open spec fn is_alnum(c: char) -> bool {
    is_alpha(c) || is_digit(c)
}

/// The index of the first line break at or after `i` (or the length).
pub open spec fn line_end(s: Seq<char>, i: int) -> int
    decreases s.len() - i,
{
    if i >= s.len() {
        s.len() as int
    } else if s[i] == '\n' {
        i
    } else {
        line_end(s, i + 1)
    }
}

/// The index of the first non-digit at or after `i` (or the length).
pub open spec fn digits_end(s: Seq<char>, i: int) -> int
    decreases s.len() - i,
{
    if i >= s.len() {
        s.len() as int
    } else if !is_digit(s[i]) {
        i
    } else {
        digits_end(s, i + 1)
    }
}

/// The index of the first character at or after `i` that cannot continue
/// an identifier (or the length).
pub open spec fn ident_end(s: Seq<char>, i: int) -> int
    decreases s.len() - i,
{
    if i >= s.len() {
        s.len() as int
    } else if !is_alnum(s[i]) {
        i
    } else {
        ident_end(s, i + 1)
    }
}

/// The end of the number literal that starts at `i`: digits, then
/// optionally a dot followed by at least one digit and more digits.
pub open spec fn number_end(s: Seq<char>, i: int) -> int {
    let d = digits_end(s, i);
    if d + 1 < s.len() && s[d] == '.' && is_digit(s[d + 1]) {
        digits_end(s, d + 1)
    } else {
        d
    }
}

/// The index of the first double quote in `s` at or after `k`.
pub open spec fn first_quote(s: Seq<char>, k: int) -> Option<nat>
    decreases s.len() - k,
{
    if k < 0 || k >= s.len() {
        None
    } else if s[k] == '"' {
        Some(k as nat)
    } else {
        first_quote(s, k + 1)
    }
}

/// Where `first_quote` lands: the first double quote at or after `k`.
pub proof fn lemma_first_quote(s: Seq<char>, k: int)
    requires
        0 <= k,
    ensures
        match first_quote(s, k) {
            Some(q) => k <= q < s.len() && s[q as int] == '"' && forall|j: int|
                k <= j < q ==> s[j] != '"',
            None => forall|j: int| k <= j < s.len() ==> s[j] != '"',
        },
    decreases s.len() - k,
{
    if k < s.len() && s[k] != '"' {
        lemma_first_quote(s, k + 1);
    }
}

/// A lexed token takes at least one character and no more than the
/// character and the rest of its line; so does an error's skip.
pub proof fn lemma_get_token_len(c: char, off: usize, line: usize, rest: Seq<char>)
    ensures
        match spec_get_token(c, off, line, rest) {
            Ok(Some((_t, n))) => 1 <= n <= rest.len() + 1,
            Err((false, Some(k), _e)) => 1 <= k <= rest.len() + 1,
            _ => true,
        },
{
    reveal_strlit("(");
    reveal_strlit(")");
    reveal_strlit("{");
    reveal_strlit("}");
    reveal_strlit(",");
    reveal_strlit(".");
    reveal_strlit("-");
    reveal_strlit("+");
    reveal_strlit(";");
    reveal_strlit("*");
    reveal_strlit("==");
    reveal_strlit("=");
    reveal_strlit("!=");
    reveal_strlit("!");
    reveal_strlit(">=");
    reveal_strlit(">");
    reveal_strlit("<=");
    reveal_strlit("<");
    reveal_strlit("/");
    lemma_first_quote(rest, 0);
}

/// Digits without leading zeros (a lone zero is kept).
pub open spec fn strip_leading_zeros(x: Seq<char>) -> Seq<char>
    decreases x.len(),
{
    if x.len() > 1 && x[0] == '0' {
        strip_leading_zeros(x.drop_first())
    } else {
        x
    }
}

/// Digits without trailing zeros.
pub open spec fn strip_trailing_zeros(x: Seq<char>) -> Seq<char>
    decreases x.len(),
{
    if x.len() > 0 && x.last() == '0' {
        strip_trailing_zeros(x.drop_last())
    } else {
        x
    }
}

/// The literal value of a number: its integer digits without leading zeros,
/// a dot, and its fraction digits without trailing zeros (`0` when none are
/// left). So `42` has the literal `42.0` and `1.50` the literal `1.5`.
pub open spec fn number_literal(int_digits: Seq<char>, frac_digits: Seq<char>) -> Seq<char> {
    let f = strip_trailing_zeros(frac_digits);
    strip_leading_zeros(int_digits) + seq!['.'] + (if f.len() == 0 {
        seq!['0']
    } else {
        f
    })
}

/// The literal of the number token whose text is `s[i..e]`.
pub open spec fn number_literal_at(s: Seq<char>, i: int, e: int) -> Seq<char> {
    let d = digits_end(s, i);
    if d < e {
        number_literal(s.subrange(i, d), s.subrange(d + 1, e))
    } else {
        number_literal(s.subrange(i, d), seq![])
    }
}

/// A token without a literal value.
pub open spec fn plain_token(ty: TokenType, lexeme: Seq<char>, off: usize, line: usize) -> TokenV {
    TokenV { token_ty: ty, line, line_offset: off, lexeme, literal: "null"@ }
}

/// The token without a literal value, with the number of characters it takes.
pub open spec fn plain(ty: TokenType, lexeme: Seq<char>, off: usize, line: usize) -> Result<
    Option<(TokenV, nat)>,
    (bool, Option<nat>, ScannerError),
> {
    Ok(Some((plain_token(ty, lexeme, off, line), lexeme.len())))
}

/// Lexes the character `c`, found at offset `off` of line `line`, followed
/// on its line by `rest`: punctuation, operators, comments, whitespace and
/// string literals. The result is the token and how many characters it
/// takes; nothing for whitespace; or an error with whether it starts a
/// comment (the rest of the line is then skipped) and how many characters
/// to skip.
pub open spec fn spec_get_token(c: char, off: usize, line: usize, rest: Seq<char>) -> Result<
    Option<(TokenV, nat)>,
    (bool, Option<nat>, ScannerError),
> {
    let next_is = |x: char| rest.len() > 0 && rest[0] == x;
    if c == '(' {
        plain(TokenType::LEFT_PAREN, "("@, off, line)
    } else if c == ')' {
        plain(TokenType::RIGHT_PAREN, ")"@, off, line)
    } else if c == '{' {
        plain(TokenType::LEFT_BRACE, "{"@, off, line)
    } else if c == '}' {
        plain(TokenType::RIGHT_BRACE, "}"@, off, line)
    } else if c == ',' {
        plain(TokenType::COMMA, ","@, off, line)
    } else if c == '.' {
        plain(TokenType::DOT, "."@, off, line)
    } else if c == '-' {
        plain(TokenType::MINUS, "-"@, off, line)
    } else if c == '+' {
        plain(TokenType::PLUS, "+"@, off, line)
    } else if c == ';' {
        plain(TokenType::SEMICOLON, ";"@, off, line)
    } else if c == '*' {
        plain(TokenType::STAR, "*"@, off, line)
    } else if c == '=' {
        if next_is('=') {
            plain(TokenType::EQUAL_EQUAL, "=="@, off, line)
        } else {
            plain(TokenType::EQUAL, "="@, off, line)
        }
    } else if c == '!' {
        if next_is('=') {
            plain(TokenType::BANG_EQUAL, "!="@, off, line)
        } else {
            plain(TokenType::BANG, "!"@, off, line)
        }
    } else if c == '>' {
        if next_is('=') {
            plain(TokenType::GREATER_EQUAL, ">="@, off, line)
        } else {
            plain(TokenType::GREATER, ">"@, off, line)
        }
    } else if c == '<' {
        if next_is('=') {
            plain(TokenType::LESS_EQUAL, "<="@, off, line)
        } else {
            plain(TokenType::LESS, "<"@, off, line)
        }
    } else if c == '/' {
        if next_is('/') {
            Err((true, None, ScannerError::UnexpectedCharacter { c: '/' }))
        } else {
            plain(TokenType::SLASH, "/"@, off, line)
        }
    } else if c == ' ' || c == '\t' || c == '\r' {
        Ok(None)
    } else if c == '"' {
        match first_quote(rest, 0) {
            None => Err((false, Some(rest.len() + 1), ScannerError::UnterminatedString)),
            Some(q) => {
                let lit = rest.take(q as int);
                Ok(
                    Some(
                        (
                            TokenV {
                                token_ty: TokenType::STRING,
                                line,
                                line_offset: off,
                                lexeme: seq!['"'] + lit + seq!['"'],
                                literal: lit,
                            },
                            q + 2,
                        ),
                    ),
                )
            },
        }
    } else {
        Err((false, None, ScannerError::UnexpectedCharacter { c }))
    }
}

/// A punctuation or operator token is the text it is written with: the
/// token scanned at a character other than a quote has as its lexeme the
/// spelling of its type, that lexeme starts with the character, and the
/// token takes exactly the lexeme's characters; a two-character operator
/// is taken only when its second character follows.
pub proof fn law_punctuation_spelled(c: char, off: usize, line: usize, rest: Seq<char>)
    ensures
        match spec_get_token(c, off, line, rest) {
            Ok(Some((t, n))) => t.token_ty != TokenType::STRING ==> spelling(t.token_ty) == Some(
                t.lexeme,
            ) && t.lexeme.len() >= 1 && t.lexeme[0] == c && n == t.lexeme.len() && (t.lexeme.len()
                == 2 ==> rest.len() > 0 && rest[0] == t.lexeme[1]),
            _ => true,
        },
{
    reveal_strlit("(");
    reveal_strlit(")");
    reveal_strlit("{");
    reveal_strlit("}");
    reveal_strlit(",");
    reveal_strlit(".");
    reveal_strlit("-");
    reveal_strlit("+");
    reveal_strlit(";");
    reveal_strlit("/");
    reveal_strlit("*");
    reveal_strlit("!");
    reveal_strlit("!=");
    reveal_strlit("=");
    reveal_strlit("==");
    reveal_strlit(">");
    reveal_strlit(">=");
    reveal_strlit("<");
    reveal_strlit("<=");
}

/// The view of what `get_token` returns.
pub open spec fn lexed_view(r: Result<Option<(Token, usize)>, (bool, Option<usize>, ScannerError)>) -> Result<
    Option<(TokenV, nat)>,
    (bool, Option<nat>, ScannerError),
> {
    match r {
        Ok(Some((t, n))) => Ok(Some((t@, n as nat))),
        Ok(None) => Ok(None),
        Err((b, k, e)) => Err(
            (
                b,
                match k {
                    Some(k) => Some(k as nat),
                    None => None,
                },
                e,
            ),
        ),
    }
}

/// The message reported for an error on (zero-based) line `line`.
pub open spec fn error_line(line: nat, e: ScannerError) -> Seq<char> {
    "[line "@ + decimal(line + 1) + "] Error: "@ + e.spec_message()
}

/// The end-of-file token that closes every scan.
pub open spec fn eof_token() -> TokenV {
    TokenV { token_ty: TokenType::EOF, line: 0, line_offset: 0, lexeme: ""@, literal: "null"@ }
}

/// The number of bytes `c` takes in UTF-8.
pub open spec fn utf8_len(c: char) -> nat {
    if (c as u32) < 0x80 {
        1
    } else if (c as u32) < 0x800 {
        2
    } else if (c as u32) < 0x10000 {
        3
    } else {
        4
    }
}

/// The number of bytes the characters `s[lo..hi]` take in UTF-8.
pub open spec fn byte_offset(s: Seq<char>, lo: int, hi: int) -> nat
    decreases hi - lo,
{
    if hi <= lo {
        0
    } else {
        byte_offset(s, lo, hi - 1) + utf8_len(s[hi - 1])
    }
}

/// The offset of the character at index `i` in its line, which starts at
/// index `ls`: the number of bytes before it in the line (`usize::MAX` if
/// that does not fit).
pub open spec fn offset_of(s: Seq<char>, ls: int, i: int) -> usize {
    let b = byte_offset(s, ls, i);
    if b >= usize::MAX {
        usize::MAX
    } else {
        b as usize
    }
}

/// Where the rest of the line after the character at index `i` is taken
/// from, the line spanning `s[ls..le]`: that many characters into the line
/// as the character's offset in bytes, plus one (the end of the line when
/// that is past it). On a line of single-byte characters this is `i + 1`.
pub open spec fn rest_start(s: Seq<char>, ls: int, i: int, le: int) -> int {
    if (offset_of(s, ls, i) as int) < le - ls {
        ls + offset_of(s, ls, i) + 1
    } else {
        le
    }
}

/// Characters take at least one byte each.
pub proof fn lemma_byte_offset_at_least(s: Seq<char>, lo: int, hi: int)
    requires
        lo <= hi,
    ensures
        byte_offset(s, lo, hi) >= hi - lo,
    decreases hi - lo,
{
    if hi > lo {
        lemma_byte_offset_at_least(s, lo, hi - 1);
    }
}

/// Scans `s` from index `i`, on line `line` (zero-based) that starts at
/// index `ls`: the tokens found and the error messages reported, in order.
pub open spec fn scan_from(s: Seq<char>, i: int, line: nat, ls: int) -> (Seq<TokenV>, Seq<Seq<char>>)
    decreases s.len() - i,
{
    if i < 0 || i >= s.len() {
        (seq![], seq![])
    } else {
        let c = s[i];
        if c == '\n' {
            scan_from(s, i + 1, line + 1, i + 1)
        } else if is_digit(c) {
            let e = number_end(s, i);
            if i < e <= s.len() {
                let t = TokenV {
                    token_ty: TokenType::NUMBER,
                    line: line as usize,
                    line_offset: offset_of(s, ls, i),
                    lexeme: s.subrange(i, e),
                    literal: number_literal_at(s, i, e),
                };
                let r = scan_from(s, e, line, ls);
                (seq![t] + r.0, r.1)
            } else {
                (seq![], seq![])
            }
        } else if is_alpha(c) {
            let e = ident_end(s, i + 1);
            if i < e <= s.len() {
                let t = plain_token(
                    keyword_type(s.subrange(i, e)),
                    s.subrange(i, e),
                    offset_of(s, ls, i),
                    line as usize,
                );
                let r = scan_from(s, e, line, ls);
                (seq![t] + r.0, r.1)
            } else {
                (seq![], seq![])
            }
        } else {
            let le = line_end(s, i + 1);
            match spec_get_token(
                c,
                offset_of(s, ls, i),
                line as usize,
                s.subrange(rest_start(s, ls, i, le), le),
            ) {
                Ok(Some((t, n))) => {
                    if 0 < n && i + n <= s.len() {
                        let r = scan_from(s, i + n, line, ls);
                        (seq![t] + r.0, r.1)
                    } else {
                        (seq![], seq![])
                    }
                },
                Ok(None) => scan_from(s, i + 1, line, ls),
                Err((is_comment, skip, err)) => {
                    if is_comment {
                        if i < le <= s.len() {
                            scan_from(s, le, line, ls)
                        } else {
                            (seq![], seq![])
                        }
                    } else {
                        let n: int = match skip {
                            Some(k) => k as int,
                            None => 1,
                        };
                        if 0 < n && i + n <= s.len() {
                            let r = scan_from(s, i + n, line, ls);
                            (r.0, seq![error_line(line, err)] + r.1)
                        } else {
                            (seq![], seq![])
                        }
                    }
                },
            }
        }
    }
}

/// The tokens of a source text, closed by the end-of-file token.
pub open spec fn scan_tokens(s: Seq<char>) -> Seq<TokenV> {
    scan_from(s, 0, 0, 0).0.push(eof_token())
}

/// The error messages reported while scanning a source text.
pub open spec fn scan_errors(s: Seq<char>) -> Seq<Seq<char>> {
    scan_from(s, 0, 0, 0).1
}

/// The exit code of a scan: 65 when any error was reported, else 0.
pub open spec fn scan_exit_code(s: Seq<char>) -> i32 {
    if scan_errors(s).len() > 0 {
        65
    } else {
        0
    }
}

/// A token without a literal value, with its length.
fn mk(ty: TokenType, lex: &str, off: usize, line: usize) -> (r: (Token, usize))
    ensures
        r.0@ == plain_token(ty, lex@, off, line),
        r.1 as nat == lex@.len(),
{
    (Token::new(ty, line, String::from_str(lex), off, String::from_str("null")), lex.unicode_len())
}

/// The index of the first double quote in `chars[lo..hi]`, relative to `lo`.
fn find_quote(chars: &Vec<char>, lo: usize, hi: usize) -> (r: Option<usize>)
    requires
        lo <= hi <= chars@.len(),
    ensures
        match r {
            Some(q) => first_quote(chars@.subrange(lo as int, hi as int), 0) == Some(q as nat),
            None => first_quote(chars@.subrange(lo as int, hi as int), 0) is None,
        },
{
    let ghost rest = chars@.subrange(lo as int, hi as int);
    let mut k = lo;
    while k < hi
        invariant
            lo <= k <= hi <= chars@.len(),
            rest == chars@.subrange(lo as int, hi as int),
            first_quote(rest, 0) == first_quote(rest, k - lo),
        decreases hi - k,
    {
        if chars[k] == '"' {
            return Some(k - lo);
        }
        k = k + 1;
    }
    None
}

/// Lexes `c` followed on its line by `chars[lo..hi]`.
fn lex_at(c: char, chars: &Vec<char>, lo: usize, hi: usize, off: usize, line: usize) -> (r: Result<
    Option<(Token, usize)>,
    (bool, Option<usize>, ScannerError),
>)
    requires
        lo <= hi <= chars@.len(),
        hi - lo < usize::MAX,
    ensures
        lexed_view(r) == spec_get_token(c, off, line, chars@.subrange(lo as int, hi as int)),
{
    let ghost rest = chars@.subrange(lo as int, hi as int);
    let next_eq = lo < hi && chars[lo] == '=';
    let next_slash = lo < hi && chars[lo] == '/';
    if c == '(' {
        Ok(Some(mk(TokenType::LEFT_PAREN, "(", off, line)))
    } else if c == ')' {
        Ok(Some(mk(TokenType::RIGHT_PAREN, ")", off, line)))
    } else if c == '{' {
        Ok(Some(mk(TokenType::LEFT_BRACE, "{", off, line)))
    } else if c == '}' {
        Ok(Some(mk(TokenType::RIGHT_BRACE, "}", off, line)))
    } else if c == ',' {
        Ok(Some(mk(TokenType::COMMA, ",", off, line)))
    } else if c == '.' {
        Ok(Some(mk(TokenType::DOT, ".", off, line)))
    } else if c == '-' {
        Ok(Some(mk(TokenType::MINUS, "-", off, line)))
    } else if c == '+' {
        Ok(Some(mk(TokenType::PLUS, "+", off, line)))
    } else if c == ';' {
        Ok(Some(mk(TokenType::SEMICOLON, ";", off, line)))
    } else if c == '*' {
        Ok(Some(mk(TokenType::STAR, "*", off, line)))
    } else if c == '=' {
        if next_eq {
            Ok(Some(mk(TokenType::EQUAL_EQUAL, "==", off, line)))
        } else {
            Ok(Some(mk(TokenType::EQUAL, "=", off, line)))
        }
    } else if c == '!' {
        if next_eq {
            Ok(Some(mk(TokenType::BANG_EQUAL, "!=", off, line)))
        } else {
            Ok(Some(mk(TokenType::BANG, "!", off, line)))
        }
    } else if c == '>' {
        if next_eq {
            Ok(Some(mk(TokenType::GREATER_EQUAL, ">=", off, line)))
        } else {
            Ok(Some(mk(TokenType::GREATER, ">", off, line)))
        }
    } else if c == '<' {
        if next_eq {
            Ok(Some(mk(TokenType::LESS_EQUAL, "<=", off, line)))
        } else {
            Ok(Some(mk(TokenType::LESS, "<", off, line)))
        }
    } else if c == '/' {
        if next_slash {
            Err((true, None, ScannerError::UnexpectedCharacter { c: '/' }))
        } else {
            Ok(Some(mk(TokenType::SLASH, "/", off, line)))
        }
    } else if c == ' ' || c == '\t' || c == '\r' {
        Ok(None)
    } else if c == '"' {
        match find_quote(chars, lo, hi) {
            None => Err((false, Some(hi - lo + 1), ScannerError::UnterminatedString)),
            Some(q) => {
                proof {
                    lemma_first_quote(rest, 0);
                }
                let mut lit: Vec<char> = Vec::new();
                push_range(&mut lit, chars, lo, lo + q);
                let mut lexeme: Vec<char> = Vec::new();
                lexeme.push('"');
                push_range(&mut lexeme, chars, lo, lo + q);
                lexeme.push('"');
                assert(lit@ =~= rest.take(q as int));
                assert(lexeme@ =~= seq!['"'] + rest.take(q as int) + seq!['"']);
                let t = Token::new(
                    TokenType::STRING,
                    line,
                    string_from_chars(lexeme),
                    off,
                    string_from_chars(lit),
                );
                Ok(Some((t, q + 2)))
            },
        }
    } else {
        Err((false, None, ScannerError::UnexpectedCharacter { c }))
    }
}


fn char_bytes(c: char) -> (r: usize)
    ensures
        r == utf8_len(c),
{
    let u = c as u32;
    if u < 0x80 {
        1
    } else if u < 0x800 {
        2
    } else if u < 0x10000 {
        3
    } else {
        4
    }
}

/// The offset of `chars[j]` in its line, from that of `chars[i]`.
fn offset_after(chars: &Vec<char>, ls: usize, i: usize, j: usize, off: usize) -> (r: usize)
    requires
        ls <= i <= j <= chars@.len(),
        off == offset_of(chars@, ls as int, i as int),
    ensures
        r == offset_of(chars@, ls as int, j as int),
{
    let mut k = i;
    let mut b = off;
    while k < j
        invariant
            ls <= i <= k <= j <= chars@.len(),
            b == offset_of(chars@, ls as int, k as int),
        decreases j - k,
    {
        let u = char_bytes(chars[k]);
        assert(byte_offset(chars@, ls as int, k + 1) == byte_offset(chars@, ls as int, k as int)
            + utf8_len(chars@[k as int]));
        b = if b > usize::MAX - u {
            usize::MAX
        } else {
            b + u
        };
        k = k + 1;
    }
    b
}

fn line_end_exec(chars: &Vec<char>, i: usize) -> (r: usize)
    requires
        i <= chars@.len(),
    ensures
        r == line_end(chars@, i as int),
        i <= r <= chars@.len(),
{
    let mut k = i;
    while k < chars.len() && chars[k] != '\n'
        invariant
            i <= k <= chars@.len(),
            line_end(chars@, i as int) == line_end(chars@, k as int),
        decreases chars@.len() - k,
    {
        k = k + 1;
    }
    k
}

fn digits_end_exec(chars: &Vec<char>, i: usize) -> (r: usize)
    requires
        i <= chars@.len(),
    ensures
        r == digits_end(chars@, i as int),
        i <= r <= chars@.len(),
        forall|j: int| i <= j < r ==> is_digit(chars@[j]),
        r < chars@.len() ==> !is_digit(chars@[r as int]),
{
    let mut k = i;
    while k < chars.len() && '0' <= chars[k] && chars[k] <= '9'
        invariant
            i <= k <= chars@.len(),
            digits_end(chars@, i as int) == digits_end(chars@, k as int),
            forall|j: int| i <= j < k ==> is_digit(chars@[j]),
        decreases chars@.len() - k,
    {
        k = k + 1;
    }
    k
}

fn is_alnum_exec(c: char) -> (r: bool)
    ensures
        r == is_alnum(c),
{
    ('a' <= c && c <= 'z') || ('A' <= c && c <= 'Z') || c == '_' || ('0' <= c && c <= '9')
}

fn ident_end_exec(chars: &Vec<char>, i: usize) -> (r: usize)
    requires
        i <= chars@.len(),
    ensures
        r == ident_end(chars@, i as int),
        i <= r <= chars@.len(),
{
    let mut k = i;
    while k < chars.len() && is_alnum_exec(chars[k])
        invariant
            i <= k <= chars@.len(),
            ident_end(chars@, i as int) == ident_end(chars@, k as int),
        decreases chars@.len() - k,
    {
        k = k + 1;
    }
    k
}

/// The literal of the number whose text is `chars[i..e]`, where `d` is
/// the end of its integer digits.
fn number_literal_exec(chars: &Vec<char>, i: usize, d: usize, e: usize) -> (r: String)
    requires
        i < d <= e <= chars@.len(),
        d == digits_end(chars@, i as int),
        d == e || (d < e && chars@[d as int] == '.'),
    ensures
        r@ == number_literal_at(chars@, i as int, e as int),
{
    let ghost s = chars@;
    // Leading zeros of the integer part.
    let mut k = i;
    while k + 1 < d && chars[k] == '0'
        invariant
            i <= k < d <= e <= s.len(),
            s == chars@,
            strip_leading_zeros(s.subrange(i as int, d as int)) == strip_leading_zeros(
                s.subrange(k as int, d as int),
            ),
        decreases d - k,
    {
        assert(s.subrange(k as int, d as int).drop_first() =~= s.subrange(k + 1, d as int));
        k = k + 1;
    }
    assert(strip_leading_zeros(s.subrange(k as int, d as int)) == s.subrange(k as int, d as int));
    let mut out: Vec<char> = Vec::new();
    push_range(&mut out, chars, k, d);
    out.push('.');
    // Trailing zeros of the fraction.
    let lo: usize = if d < e {
        d + 1
    } else {
        e
    };
    let ghost frac = if d < e {
        s.subrange(d + 1, e as int)
    } else {
        seq![]
    };
    assert(frac =~= s.subrange(lo as int, e as int));
    let mut m = e;
    while m > lo && chars[m - 1] == '0'
        invariant
            lo <= m <= e <= s.len(),
            s == chars@,
            strip_trailing_zeros(frac) == strip_trailing_zeros(s.subrange(lo as int, m as int)),
        decreases m,
    {
        assert(s.subrange(lo as int, m as int).drop_last() =~= s.subrange(lo as int, m - 1));
        m = m - 1;
    }
    assert(strip_trailing_zeros(s.subrange(lo as int, m as int)) == s.subrange(lo as int, m as int));
    if m == lo {
        out.push('0');
    } else {
        push_range(&mut out, chars, lo, m);
    }
    let ghost f = strip_trailing_zeros(frac);
    assert(out@ =~= strip_leading_zeros(s.subrange(i as int, d as int)) + seq!['.'] + (if f.len()
        == 0 {
        seq!['0']
    } else {
        f
    }));
    string_from_chars(out)
}

/// The message reported for an error on (zero-based) line `line`.
fn error_message(line: usize, err: ScannerError) -> (r: String)
    requires
        line < usize::MAX,
    ensures
        r@ == error_line(line as nat, err),
{
    let mut v: Vec<char> = Vec::new();
    push_str(&mut v, "[line ");
    push_decimal(&mut v, line + 1);
    push_str(&mut v, "] Error: ");
    let m = err.message();
    push_str(&mut v, m.as_str());
    string_from_chars(v)
}

pub proof fn lemma_strings_view_push(v: Seq<String>, t: String)
    ensures
        strings_view(v.push(t)) == strings_view(v).push(t@),
{
    assert(strings_view(v.push(t)) =~= strings_view(v).push(t@));
}

/// A scanner over a source text; it collects the tokens it finds and the
/// error messages it reports.
pub struct Scanner {
    source: String,
    tokens: Vec<Token>,
    errors: Vec<String>,
}

/// The contents of a sequence of strings.
pub open spec fn strings_view(v: Seq<String>) -> Seq<Seq<char>> {
    v.map_values(|s: String| s@)
}

impl Scanner {
    /// The source text.
    pub closed spec fn source_view(&self) -> Seq<char> {
        self.source@
    }

    /// The tokens collected so far.
    pub closed spec fn tokens_v(&self) -> Seq<TokenV> {
        tokens_view(self.tokens@)
    }

    /// The error messages reported so far.
    pub closed spec fn errors_v(&self) -> Seq<Seq<char>> {
        strings_view(self.errors@)
    }

    /// A scanner over the given source text, with nothing collected yet.
    pub fn from_source(source: String) -> (r: Scanner)
        ensures
            r.source_view() == source@,
            r.tokens_v() == Seq::<TokenV>::empty(),
            r.errors_v() == Seq::<Seq<char>>::empty(),
    {
        let r = Scanner { source, tokens: Vec::new(), errors: Vec::new() };
        assert(tokens_view(r.tokens@) =~= Seq::<TokenV>::empty());
        assert(strings_view(r.errors@) =~= Seq::<Seq<char>>::empty());
        r
    }

    /// Lexes the character `c`, found at offset `line_offset` of line
    /// `line_ix`, followed on its line by `rest_of_line` (see
    /// `spec_get_token`). Number literals and identifiers are not lexed
    /// here: `scan` recognizes them first.
    pub fn get_token(
        c: &char,
        line_offset: &usize,
        line_ix: &usize,
        rest_of_line: String,
    ) -> (r: Result<Option<(Token, usize)>, (bool, Option<usize>, ScannerError)>)
        requires
            rest_of_line@.len() < usize::MAX,
        ensures
            lexed_view(r) == spec_get_token(*c, *line_offset, *line_ix, rest_of_line@),
    {
        let v = chars_of(rest_of_line.as_str());
        assert(v@.subrange(0, v@.len() as int) =~= rest_of_line@);
        lex_at(*c, &v, 0, v.len(), *line_offset, *line_ix)
    }

    /// Scans the whole source: the tokens it holds, closed by an
    /// end-of-file token, are added to the collected tokens and the errors
    /// it reports to the collected errors. The result is the exit code:
    /// 65 when this scan reported an error, else 0. A token's offset in its
    /// line counts bytes (UTF-8), and the rest of the line a character is
    /// lexed with starts that many characters after the line's start, plus
    /// one (see `rest_start`); on lines of single-byte characters this is
    /// the text after the character. After `é`, which takes two bytes, the
    /// text `==` gives two `EQUAL` tokens, at offsets 2 and 3.
    pub fn scan(&mut self) -> (r: Result<i32, String>)
        ensures
            final(self).source_view() == old(self).source_view(),
            final(self).tokens_v() == old(self).tokens_v() + scan_tokens(old(self).source_view()),
            final(self).errors_v() == old(self).errors_v() + scan_errors(old(self).source_view()),
            r == Ok::<i32, String>(scan_exit_code(old(self).source_view())),
    {
        let chars = chars_of(self.source.as_str());
        let ghost s = chars@;
        let n = chars.len();
        let mut toks: Vec<Token> = Vec::new();
        let mut errs: Vec<String> = Vec::new();
        let mut i: usize = 0;
        let mut line: usize = 0;
        let mut ls: usize = 0;
        let mut off: usize = 0;
        assert(tokens_view(toks@) =~= Seq::<TokenV>::empty());
        assert(strings_view(errs@) =~= Seq::<Seq<char>>::empty());
        while i < n
            invariant
                s == chars@,
                n == s.len(),
                s == self.source@,
                i <= n,
                ls <= i,
                line <= i,
                off == offset_of(s, ls as int, i as int),
                scan_from(s, 0, 0, 0).0 == tokens_view(toks@) + scan_from(
                    s,
                    i as int,
                    line as nat,
                    ls as int,
                ).0,
                scan_from(s, 0, 0, 0).1 == strings_view(errs@) + scan_from(
                    s,
                    i as int,
                    line as nat,
                    ls as int,
                ).1,
            decreases n - i,
        {
            let c = chars[i];
            let ghost rest = scan_from(s, i as int, line as nat, ls as int);
            if c == '\n' {
                line = line + 1;
                i = i + 1;
                ls = i;
                off = 0;
            } else if '0' <= c && c <= '9' {
                let d = digits_end_exec(&chars, i);
                let e = if n - d > 1 && chars[d] == '.' && '0' <= chars[d + 1] && chars[d + 1]
                    <= '9' {
                    digits_end_exec(&chars, d + 1)
                } else {
                    d
                };
                assert(e == number_end(s, i as int));
                let mut lex: Vec<char> = Vec::new();
                push_range(&mut lex, &chars, i, e);
                let lit = number_literal_exec(&chars, i, d, e);
                let t = Token::new(TokenType::NUMBER, line, string_from_chars(lex), off, lit);
                proof {
                    lemma_tokens_view_push(toks@, t);
                }
                toks.push(t);
                off = offset_after(&chars, ls, i, e, off);
                i = e;
            } else if ('a' <= c && c <= 'z') || ('A' <= c && c <= 'Z') || c == '_' {
                let e = ident_end_exec(&chars, i + 1);
                let ty = keyword_lookup(&chars, i, e);
                let mut lex: Vec<char> = Vec::new();
                push_range(&mut lex, &chars, i, e);
                let t = Token::new(ty, line, string_from_chars(lex), off, String::from_str("null"));
                proof {
                    lemma_tokens_view_push(toks@, t);
                }
                toks.push(t);
                off = offset_after(&chars, ls, i, e, off);
                i = e;
            } else {
                let le = line_end_exec(&chars, i + 1);
                let st = if off < le - ls {
                    ls + off + 1
                } else {
                    le
                };
                proof {
                    lemma_byte_offset_at_least(s, ls as int, i as int);
                    assert(st == rest_start(s, ls as int, i as int, le as int));
                    assert(i + 1 <= st <= le);
                }
                let lexed = lex_at(c, &chars, st, le, off, line);
                proof {
                    lemma_get_token_len(c, off, line, s.subrange(st as int, le as int));
                }
                match lexed {
                    Ok(Some((t, k))) => {
                        proof {
                            lemma_tokens_view_push(toks@, t);
                        }
                        toks.push(t);
                        off = offset_after(&chars, ls, i, i + k, off);
                        i = i + k;
                    },
                    Ok(None) => {
                        off = offset_after(&chars, ls, i, i + 1, off);
                        i = i + 1;
                    },
                    Err((is_comment, skip, err)) => {
                        if is_comment {
                            off = offset_after(&chars, ls, i, le, off);
                            i = le;
                        } else {
                            let msg = error_message(line, err);
                            proof {
                                lemma_strings_view_push(errs@, msg);
                            }
                            errs.push(msg);
                            match skip {
                                Some(k) => {
                                    off = offset_after(&chars, ls, i, i + k, off);
                                    i = i + k;
                                },
                                None => {
                                    off = offset_after(&chars, ls, i, i + 1, off);
                                    i = i + 1;
                                },
                            }
                        }
                    },
                }
            }
        }
        assert(scan_from(s, i as int, line as nat, ls as int).0 =~= Seq::<TokenV>::empty());
        assert(scan_from(s, i as int, line as nat, ls as int).1 =~= Seq::<Seq<char>>::empty());
        assert(tokens_view(toks@) =~= scan_from(s, 0, 0, 0).0);
        assert(strings_view(errs@) =~= scan_from(s, 0, 0, 0).1);
        let exit_code: i32 = if errs.len() > 0 {
            65
        } else {
            0
        };
        let eof = Token::new(TokenType::EOF, 0, String::from_str(""), 0, String::from_str("null"));
        proof {
            lemma_tokens_view_push(toks@, eof);
            assert(eof@ == eof_token());
        }
        toks.push(eof);
        let ghost old_toks = self.tokens@;
        let ghost old_errs = self.errors@;
        let ghost new_toks = toks@;
        let ghost new_errs = errs@;
        assert(tokens_view(new_toks) == scan_tokens(s));
        assert(strings_view(new_errs) =~= scan_errors(s));
        self.tokens.append(&mut toks);
        self.errors.append(&mut errs);
        assert(self.tokens@ == old_toks + new_toks);
        assert(tokens_view(self.tokens@) =~= tokens_view(old_toks) + scan_tokens(s));
        assert(strings_view(self.errors@) =~= strings_view(old_errs) + scan_errors(s));
        Ok(exit_code)
    }

    /// Each collected token, printed as `TYPE lexeme literal`.
    pub fn token_lines(&self) -> (r: Vec<String>)
        ensures
            strings_view(r@) == self.tokens_v().map_values(|t: TokenV| token_repr(t)),
    {
        let mut out: Vec<String> = Vec::new();
        let n = self.tokens.len();
        for k in 0..n
            invariant
                n == self.tokens@.len(),
                strings_view(out@) == self.tokens_v().take(k as int).map_values(
                    |t: TokenV| token_repr(t),
                ),
        {
            let line = self.tokens[k].to_string();
            proof {
                lemma_strings_view_push(out@, line);
            }
            out.push(line);
            assert(self.tokens_v().take(k + 1).map_values(|t: TokenV| token_repr(t))
                =~= self.tokens_v().take(k as int).map_values(|t: TokenV| token_repr(t)).push(
                token_repr(self.tokens_v()[k as int]),
            ));
        }
        assert(self.tokens_v().take(n as int) =~= self.tokens_v());
        out
    }

    /// A copy of the collected tokens.
    pub fn get_tokens(&self) -> (r: Vec<Token>)
        ensures
            tokens_view(r@) == self.tokens_v(),
    {
        let mut out: Vec<Token> = Vec::new();
        let n = self.tokens.len();
        for k in 0..n
            invariant
                n == self.tokens@.len(),
                tokens_view(out@) == self.tokens_v().take(k as int),
        {
            let t = self.tokens[k].duplicate();
            proof {
                lemma_tokens_view_push(out@, t);
            }
            out.push(t);
            assert(self.tokens_v().take(k + 1) =~= self.tokens_v().take(k as int).push(
                self.tokens_v()[k as int],
            ));
        }
        assert(self.tokens_v().take(n as int) =~= self.tokens_v());
        out
    }

    /// A copy of the collected error messages.
    pub fn get_errors(&self) -> (r: Vec<String>)
        ensures
            strings_view(r@) == self.errors_v(),
    {
        let mut out: Vec<String> = Vec::new();
        let n = self.errors.len();
        for k in 0..n
            invariant
                n == self.errors@.len(),
                strings_view(out@) == self.errors_v().take(k as int),
        {
            let e = self.errors[k].clone();
            proof {
                lemma_strings_view_push(out@, e);
            }
            out.push(e);
            assert(self.errors_v().take(k + 1) =~= self.errors_v().take(k as int).push(
                self.errors_v()[k as int],
            ));
        }
        assert(self.errors_v().take(n as int) =~= self.errors_v());
        out
    }
}

proof fn lemma_no_eof_from(s: Seq<char>, i: int, line: nat, ls: int)
    ensures
        forall|k: int|
            0 <= k < scan_from(s, i, line, ls).0.len() ==> #[trigger] scan_from(
                s,
                i,
                line,
                ls,
            ).0[k].token_ty != TokenType::EOF,
    decreases s.len() - i,
{
    if 0 <= i < s.len() {
        let c = s[i];
        if c == '\n' {
            lemma_no_eof_from(s, i + 1, line + 1, i + 1);
        } else if is_digit(c) {
            let e = number_end(s, i);
            if i < e <= s.len() {
                lemma_no_eof_from(s, e, line, ls);
            }
        } else if is_alpha(c) {
            let e = ident_end(s, i + 1);
            if i < e <= s.len() {
                lemma_no_eof_from(s, e, line, ls);
            }
        } else {
            let le = line_end(s, i + 1);
            match spec_get_token(
                c,
                offset_of(s, ls, i),
                line as usize,
                s.subrange(rest_start(s, ls, i, le), le),
            ) {
                Ok(Some((t, n))) => {
                    if 0 < n && i + n <= s.len() {
                        lemma_no_eof_from(s, i + n, line, ls);
                    }
                },
                Ok(None) => lemma_no_eof_from(s, i + 1, line, ls),
                Err((is_comment, skip, err)) => {
                    if is_comment {
                        if i < le <= s.len() {
                            lemma_no_eof_from(s, le, line, ls);
                        }
                    } else {
                        let n: int = match skip {
                            Some(k) => k as int,
                            None => 1,
                        };
                        if 0 < n && i + n <= s.len() {
                            lemma_no_eof_from(s, i + n, line, ls);
                        }
                    }
                },
            }
        }
    }
}

/// A scan yields exactly one end-of-file token, and it comes last.
pub proof fn law_one_eof_at_end(s: Seq<char>)
    ensures
        scan_tokens(s).len() >= 1,
        scan_tokens(s).last().token_ty == TokenType::EOF,
        forall|k: int|
            0 <= k < scan_tokens(s).len() - 1 ==> #[trigger] scan_tokens(s)[k].token_ty
                != TokenType::EOF,
{
    lemma_no_eof_from(s, 0, 0, 0);
    assert forall|k: int| 0 <= k < scan_tokens(s).len() - 1 implies #[trigger] scan_tokens(
        s,
    )[k].token_ty != TokenType::EOF by {
        assert(scan_tokens(s)[k] == scan_from(s, 0, 0, 0).0[k]);
    }
}

/// The exit code of a scan is 65 exactly when an error was reported, and 0
/// otherwise.
pub proof fn law_exit_code_reports_errors(s: Seq<char>)
    ensures
        scan_exit_code(s) == 65 <==> scan_errors(s).len() > 0,
        scan_exit_code(s) == 0 <==> scan_errors(s).len() == 0,
{
}

} // verus!
