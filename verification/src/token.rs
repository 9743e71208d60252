use vstd::prelude::*;


verus! {

/// The kinds of token the scanner produces.
#[allow(non_camel_case_types)]
#[derive(Clone, Copy, Debug, PartialEq, Eq, Structural)]
pub enum TokenType {
    // Single-character tokens.
    LEFT_PAREN,
    RIGHT_PAREN,
    LEFT_BRACE,
    RIGHT_BRACE,
    COMMA,
    DOT,
    MINUS,
    PLUS,
    SEMICOLON,
    SLASH,
    STAR,
    // One or two character tokens.
    BANG,
    BANG_EQUAL,
    EQUAL,
    EQUAL_EQUAL,
    GREATER,
    GREATER_EQUAL,
    LESS,
    LESS_EQUAL,
    // Literals.
    IDENTIFIER,
    STRING,
    NUMBER,
    // Keywords.
    AND,
    CLASS,
    ELSE,
    FALSE,
    FUN,
    FOR,
    IF,
    NIL,
    OR,
    PRINT,
    RETURN,
    SUPER,
    THIS,
    TRUE,
    VAR,
    WHILE,
    EOF,
}


impl TokenType {
    /// The name of the token type, as the scanner prints it.
    pub open spec fn spec_name(self) -> Seq<char> {
        match self {
            TokenType::LEFT_PAREN => "LEFT_PAREN"@,
            TokenType::RIGHT_PAREN => "RIGHT_PAREN"@,
            TokenType::LEFT_BRACE => "LEFT_BRACE"@,
            TokenType::RIGHT_BRACE => "RIGHT_BRACE"@,
            TokenType::COMMA => "COMMA"@,
            TokenType::DOT => "DOT"@,
            TokenType::MINUS => "MINUS"@,
            TokenType::PLUS => "PLUS"@,
            TokenType::SEMICOLON => "SEMICOLON"@,
            TokenType::SLASH => "SLASH"@,
            TokenType::STAR => "STAR"@,
            TokenType::BANG => "BANG"@,
            TokenType::BANG_EQUAL => "BANG_EQUAL"@,
            TokenType::EQUAL => "EQUAL"@,
            TokenType::EQUAL_EQUAL => "EQUAL_EQUAL"@,
            TokenType::GREATER => "GREATER"@,
            TokenType::GREATER_EQUAL => "GREATER_EQUAL"@,
            TokenType::LESS => "LESS"@,
            TokenType::LESS_EQUAL => "LESS_EQUAL"@,
            TokenType::IDENTIFIER => "IDENTIFIER"@,
            TokenType::STRING => "STRING"@,
            TokenType::NUMBER => "NUMBER"@,
            TokenType::AND => "AND"@,
            TokenType::CLASS => "CLASS"@,
            TokenType::ELSE => "ELSE"@,
            TokenType::FALSE => "FALSE"@,
            TokenType::FUN => "FUN"@,
            TokenType::FOR => "FOR"@,
            TokenType::IF => "IF"@,
            TokenType::NIL => "NIL"@,
            TokenType::OR => "OR"@,
            TokenType::PRINT => "PRINT"@,
            TokenType::RETURN => "RETURN"@,
            TokenType::SUPER => "SUPER"@,
            TokenType::THIS => "THIS"@,
            TokenType::TRUE => "TRUE"@,
            TokenType::VAR => "VAR"@,
            TokenType::WHILE => "WHILE"@,
            TokenType::EOF => "EOF"@,
        }
    }

    /// The name of the token type, as the scanner prints it.
    pub fn name(&self) -> (r: &'static str)
        ensures
            r@ == self.spec_name(),
    {
        match self {
            TokenType::LEFT_PAREN => "LEFT_PAREN",
            TokenType::RIGHT_PAREN => "RIGHT_PAREN",
            TokenType::LEFT_BRACE => "LEFT_BRACE",
            TokenType::RIGHT_BRACE => "RIGHT_BRACE",
            TokenType::COMMA => "COMMA",
            TokenType::DOT => "DOT",
            TokenType::MINUS => "MINUS",
            TokenType::PLUS => "PLUS",
            TokenType::SEMICOLON => "SEMICOLON",
            TokenType::SLASH => "SLASH",
            TokenType::STAR => "STAR",
            TokenType::BANG => "BANG",
            TokenType::BANG_EQUAL => "BANG_EQUAL",
            TokenType::EQUAL => "EQUAL",
            TokenType::EQUAL_EQUAL => "EQUAL_EQUAL",
            TokenType::GREATER => "GREATER",
            TokenType::GREATER_EQUAL => "GREATER_EQUAL",
            TokenType::LESS => "LESS",
            TokenType::LESS_EQUAL => "LESS_EQUAL",
            TokenType::IDENTIFIER => "IDENTIFIER",
            TokenType::STRING => "STRING",
            TokenType::NUMBER => "NUMBER",
            TokenType::AND => "AND",
            TokenType::CLASS => "CLASS",
            TokenType::ELSE => "ELSE",
            TokenType::FALSE => "FALSE",
            TokenType::FUN => "FUN",
            TokenType::FOR => "FOR",
            TokenType::IF => "IF",
            TokenType::NIL => "NIL",
            TokenType::OR => "OR",
            TokenType::PRINT => "PRINT",
            TokenType::RETURN => "RETURN",
            TokenType::SUPER => "SUPER",
            TokenType::THIS => "THIS",
            TokenType::TRUE => "TRUE",
            TokenType::VAR => "VAR",
            TokenType::WHILE => "WHILE",
            TokenType::EOF => "EOF",
        }
    }

    /// Whether a token of this type can begin a statement (the points at
    /// which error recovery resumes parsing).
    pub open spec fn spec_starts_stmt(self) -> bool {
        match self {
            TokenType::CLASS | TokenType::FUN | TokenType::VAR | TokenType::FOR | TokenType::IF
            | TokenType::WHILE | TokenType::PRINT | TokenType::RETURN => true,
            _ => false,
        }
    }

    pub fn is_token_starting_stmt(token_ty: &TokenType) -> (r: bool)
        ensures
            r == token_ty.spec_starts_stmt(),
    {
        match token_ty {
            TokenType::CLASS | TokenType::FUN | TokenType::VAR | TokenType::FOR | TokenType::IF
            | TokenType::WHILE | TokenType::PRINT | TokenType::RETURN => true,
            _ => false,
        }
    }
}

/// The token type of a word: the keyword it spells, or `IDENTIFIER`.
pub open spec fn keyword_type(s: Seq<char>) -> TokenType {
    if s == "and"@ {
        TokenType::AND
    } else if s == "class"@ {
        TokenType::CLASS
    } else if s == "else"@ {
        TokenType::ELSE
    } else if s == "false"@ {
        TokenType::FALSE
    } else if s == "fun"@ {
        TokenType::FUN
    } else if s == "for"@ {
        TokenType::FOR
    } else if s == "if"@ {
        TokenType::IF
    } else if s == "nil"@ {
        TokenType::NIL
    } else if s == "or"@ {
        TokenType::OR
    } else if s == "print"@ {
        TokenType::PRINT
    } else if s == "return"@ {
        TokenType::RETURN
    } else if s == "super"@ {
        TokenType::SUPER
    } else if s == "this"@ {
        TokenType::THIS
    } else if s == "true"@ {
        TokenType::TRUE
    } else if s == "var"@ {
        TokenType::VAR
    } else if s == "while"@ {
        TokenType::WHILE
    } else {
        TokenType::IDENTIFIER
    }
}

/// How a punctuation or operator token is written in Lox source; `None`
/// for the other token types.
pub open spec fn spelling(ty: TokenType) -> Option<Seq<char>> {
    match ty {
        TokenType::LEFT_PAREN => Some("("@),
        TokenType::RIGHT_PAREN => Some(")"@),
        TokenType::LEFT_BRACE => Some("{"@),
        TokenType::RIGHT_BRACE => Some("}"@),
        TokenType::COMMA => Some(","@),
        TokenType::DOT => Some("."@),
        TokenType::MINUS => Some("-"@),
        TokenType::PLUS => Some("+"@),
        TokenType::SEMICOLON => Some(";"@),
        TokenType::SLASH => Some("/"@),
        TokenType::STAR => Some("*"@),
        TokenType::BANG => Some("!"@),
        TokenType::BANG_EQUAL => Some("!="@),
        TokenType::EQUAL => Some("="@),
        TokenType::EQUAL_EQUAL => Some("=="@),
        TokenType::GREATER => Some(">"@),
        TokenType::GREATER_EQUAL => Some(">="@),
        TokenType::LESS => Some("<"@),
        TokenType::LESS_EQUAL => Some("<="@),
        _ => None,
    }
}

/// A word in capital letters: each lowercase ASCII letter becomes its
/// capital, every other character stays.
pub open spec fn upper(s: Seq<char>) -> Seq<char> {
    s.map_values(|c: char| if 'a' <= c && c <= 'z' {
        ((c as int) - 32) as char
    } else {
        c
    })
}

/// A keyword's token is printed under the keyword's own name in capitals:
/// the scanner's reading of a keyword and the printed name of the token
/// type it gives agree, so `and` prints as `AND` and `or` as `OR`.
pub proof fn law_keyword_names(w: Seq<char>)
    requires
        keyword_type(w) != TokenType::IDENTIFIER,
    ensures
        keyword_type(w).spec_name() == upper(w),
{
    reveal_strlit("and");
    reveal_strlit("AND");
    reveal_strlit("class");
    reveal_strlit("CLASS");
    reveal_strlit("else");
    reveal_strlit("ELSE");
    reveal_strlit("false");
    reveal_strlit("FALSE");
    reveal_strlit("fun");
    reveal_strlit("FUN");
    reveal_strlit("for");
    reveal_strlit("FOR");
    reveal_strlit("if");
    reveal_strlit("IF");
    reveal_strlit("nil");
    reveal_strlit("NIL");
    reveal_strlit("or");
    reveal_strlit("OR");
    reveal_strlit("print");
    reveal_strlit("PRINT");
    reveal_strlit("return");
    reveal_strlit("RETURN");
    reveal_strlit("super");
    reveal_strlit("SUPER");
    reveal_strlit("this");
    reveal_strlit("THIS");
    reveal_strlit("true");
    reveal_strlit("TRUE");
    reveal_strlit("var");
    reveal_strlit("VAR");
    reveal_strlit("while");
    reveal_strlit("WHILE");
    if w == "and"@ {
        assert(upper(w) =~= "AND"@);
    } else if w == "class"@ {
        assert(upper(w) =~= "CLASS"@);
    } else if w == "else"@ {
        assert(upper(w) =~= "ELSE"@);
    } else if w == "false"@ {
        assert(upper(w) =~= "FALSE"@);
    } else if w == "fun"@ {
        assert(upper(w) =~= "FUN"@);
    } else if w == "for"@ {
        assert(upper(w) =~= "FOR"@);
    } else if w == "if"@ {
        assert(upper(w) =~= "IF"@);
    } else if w == "nil"@ {
        assert(upper(w) =~= "NIL"@);
    } else if w == "or"@ {
        assert(upper(w) =~= "OR"@);
    } else if w == "print"@ {
        assert(upper(w) =~= "PRINT"@);
    } else if w == "return"@ {
        assert(upper(w) =~= "RETURN"@);
    } else if w == "super"@ {
        assert(upper(w) =~= "SUPER"@);
    } else if w == "this"@ {
        assert(upper(w) =~= "THIS"@);
    } else if w == "true"@ {
        assert(upper(w) =~= "TRUE"@);
    } else if w == "var"@ {
        assert(upper(w) =~= "VAR"@);
    } else if w == "while"@ {
        assert(upper(w) =~= "WHILE"@);
    }
}

/// Each token type is printed under the name of its variant.
pub proof fn law_token_names()
    ensures
        TokenType::LEFT_PAREN.spec_name() == "LEFT_PAREN"@,
        TokenType::RIGHT_PAREN.spec_name() == "RIGHT_PAREN"@,
        TokenType::LEFT_BRACE.spec_name() == "LEFT_BRACE"@,
        TokenType::RIGHT_BRACE.spec_name() == "RIGHT_BRACE"@,
        TokenType::COMMA.spec_name() == "COMMA"@,
        TokenType::DOT.spec_name() == "DOT"@,
        TokenType::MINUS.spec_name() == "MINUS"@,
        TokenType::PLUS.spec_name() == "PLUS"@,
        TokenType::SEMICOLON.spec_name() == "SEMICOLON"@,
        TokenType::SLASH.spec_name() == "SLASH"@,
        TokenType::STAR.spec_name() == "STAR"@,
        TokenType::BANG.spec_name() == "BANG"@,
        TokenType::BANG_EQUAL.spec_name() == "BANG_EQUAL"@,
        TokenType::EQUAL.spec_name() == "EQUAL"@,
        TokenType::EQUAL_EQUAL.spec_name() == "EQUAL_EQUAL"@,
        TokenType::GREATER.spec_name() == "GREATER"@,
        TokenType::GREATER_EQUAL.spec_name() == "GREATER_EQUAL"@,
        TokenType::LESS.spec_name() == "LESS"@,
        TokenType::LESS_EQUAL.spec_name() == "LESS_EQUAL"@,
        TokenType::IDENTIFIER.spec_name() == "IDENTIFIER"@,
        TokenType::STRING.spec_name() == "STRING"@,
        TokenType::NUMBER.spec_name() == "NUMBER"@,
        TokenType::AND.spec_name() == "AND"@,
        TokenType::CLASS.spec_name() == "CLASS"@,
        TokenType::ELSE.spec_name() == "ELSE"@,
        TokenType::FALSE.spec_name() == "FALSE"@,
        TokenType::FUN.spec_name() == "FUN"@,
        TokenType::FOR.spec_name() == "FOR"@,
        TokenType::IF.spec_name() == "IF"@,
        TokenType::NIL.spec_name() == "NIL"@,
        TokenType::OR.spec_name() == "OR"@,
        TokenType::PRINT.spec_name() == "PRINT"@,
        TokenType::RETURN.spec_name() == "RETURN"@,
        TokenType::SUPER.spec_name() == "SUPER"@,
        TokenType::THIS.spec_name() == "THIS"@,
        TokenType::TRUE.spec_name() == "TRUE"@,
        TokenType::VAR.spec_name() == "VAR"@,
        TokenType::WHILE.spec_name() == "WHILE"@,
        TokenType::EOF.spec_name() == "EOF"@,
{
}

/// Whether `chars[lo..hi]` spells `word`.
pub fn matches_word(chars: &Vec<char>, lo: usize, hi: usize, word: &str) -> (r: bool)
    requires
        lo <= hi <= chars@.len(),
    ensures
        r == (chars@.subrange(lo as int, hi as int) == word@),
{
    let n = word.unicode_len();
    if hi - lo != n {
        return false;
    }
    let mut k: usize = 0;
    while k < n
        invariant
            lo <= hi <= chars@.len(),
            hi - lo == n,
            n == word@.len(),
            k <= n,
            forall|j: int| 0 <= j < k ==> chars@[lo + j] == word@[j],
        decreases n - k,
    {
        if chars[lo + k] != word.get_char(k) {
            assert(chars@.subrange(lo as int, hi as int)[k as int] != word@[k as int]);
            return false;
        }
        k = k + 1;
    }
    assert(chars@.subrange(lo as int, hi as int) =~= word@);
    true
}

/// The token type of the word `chars[lo..hi]`.
pub fn keyword_lookup(chars: &Vec<char>, lo: usize, hi: usize) -> (r: TokenType)
    requires
        lo <= hi <= chars@.len(),
    ensures
        r == keyword_type(chars@.subrange(lo as int, hi as int)),
{
    if matches_word(chars, lo, hi, "and") {
        TokenType::AND
    } else if matches_word(chars, lo, hi, "class") {
        TokenType::CLASS
    } else if matches_word(chars, lo, hi, "else") {
        TokenType::ELSE
    } else if matches_word(chars, lo, hi, "false") {
        TokenType::FALSE
    } else if matches_word(chars, lo, hi, "fun") {
        TokenType::FUN
    } else if matches_word(chars, lo, hi, "for") {
        TokenType::FOR
    } else if matches_word(chars, lo, hi, "if") {
        TokenType::IF
    } else if matches_word(chars, lo, hi, "nil") {
        TokenType::NIL
    } else if matches_word(chars, lo, hi, "or") {
        TokenType::OR
    } else if matches_word(chars, lo, hi, "print") {
        TokenType::PRINT
    } else if matches_word(chars, lo, hi, "return") {
        TokenType::RETURN
    } else if matches_word(chars, lo, hi, "super") {
        TokenType::SUPER
    } else if matches_word(chars, lo, hi, "this") {
        TokenType::THIS
    } else if matches_word(chars, lo, hi, "true") {
        TokenType::TRUE
    } else if matches_word(chars, lo, hi, "var") {
        TokenType::VAR
    } else if matches_word(chars, lo, hi, "while") {
        TokenType::WHILE
    } else {
        TokenType::IDENTIFIER
    }
}


/// A token: its type, where it starts (zero-based line and offset in the
/// line), the source text it was made from, and its literal value
/// (`null` for tokens without one).
#[derive(Clone, Debug)]
pub struct Token {
    pub token_ty: TokenType,
    pub line: usize,
    pub line_offset: usize,
    pub lexeme: String,
    pub literal: String,
}

/// What a token holds, as mathematical values.
pub ghost struct TokenV {
    pub token_ty: TokenType,
    pub line: usize,
    pub line_offset: usize,
    pub lexeme: Seq<char>,
    pub literal: Seq<char>,
}

impl View for Token {
    type V = TokenV;

    open spec fn view(&self) -> TokenV {
        TokenV {
            token_ty: self.token_ty,
            line: self.line,
            line_offset: self.line_offset,
            lexeme: self.lexeme@,
            literal: self.literal@,
        }
    }
}

/// The views of a sequence of tokens.
pub open spec fn tokens_view(v: Seq<Token>) -> Seq<TokenV> {
    v.map_values(|t: Token| t@)
}

/// The printed form of a token: its type's name, its lexeme and its literal,
/// separated by single spaces.
pub open spec fn token_repr(t: TokenV) -> Seq<char> {
    t.token_ty.spec_name() + seq![' '] + t.lexeme + seq![' '] + t.literal
}

impl Token {
    pub fn new(
        token_ty: TokenType,
        line: usize,
        lexeme: String,
        line_offset: usize,
        literal: String,
    ) -> (r: Self)
        ensures
            r.token_ty == token_ty,
            r.line == line,
            r.lexeme == lexeme,
            r.line_offset == line_offset,
            r.literal == literal,
    {
        Self { token_ty, line, lexeme, line_offset, literal }
    }

    /// The token printed as `TYPE lexeme literal`.
    pub fn to_string(&self) -> (r: String)
        ensures
            r@ == token_repr(self@),
    {
        let mut s = String::new();
        s.append(self.token_ty.name());
        s.append(" ");
        s.append(self.lexeme.as_str());
        s.append(" ");
        s.append(self.literal.as_str());
        proof {
            reveal_strlit(" ");
        }
        assert(s@ =~= token_repr(self@));
        s
    }

    /// A field-for-field copy of the token.
    pub fn duplicate(&self) -> (r: Token)
        ensures
            r == *self,
    {
        Token {
            token_ty: self.token_ty,
            line: self.line,
            line_offset: self.line_offset,
            lexeme: self.lexeme.clone(),
            literal: self.literal.clone(),
        }
    }
}

/// Two tokens are equal when their types are.
impl PartialEq for Token {
    fn eq(&self, other: &Self) -> (r: bool) {
        self.token_ty == other.token_ty
    }
}

impl vstd::std_specs::cmp::PartialEqSpecImpl for Token {
    open spec fn obeys_eq_spec() -> bool {
        true
    }

    open spec fn eq_spec(&self, other: &Token) -> bool {
        self.token_ty == other.token_ty
    }
}


pub proof fn lemma_tokens_view_push(v: Seq<Token>, t: Token)
    ensures
        tokens_view(v.push(t)) == tokens_view(v).push(t@),
{
    assert(tokens_view(v.push(t)) =~= tokens_view(v).push(t@));
}


} // verus!
