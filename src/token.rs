//! The token vocabulary and the numeric value shared by all stages.
use vstd::prelude::*;

verus! {

/// A numeric value: a 64-bit integer or a binary64 float, tagged by kind.
/// A float is held as its IEEE-754 bit pattern.
#[derive(Debug, Clone, Copy, PartialEq, Eq, Structural)]
pub enum Number {
    Integer(i64),
    Float(u64),
}

/// Reserved words.
#[derive(Debug, Clone, Copy, PartialEq, Eq, Structural)]
pub enum KeyWord {
    And,
    Class,
    Else,
    False,
    Fun,
    For,
    If,
    Nil,
    Or,
    Print,
    Return,
    Super,
    This,
    True,
    Var,
    While,
}

/// The spelling of a keyword.
pub open spec fn keyword_text(k: KeyWord) -> Seq<char> {
    match k {
        KeyWord::And => "and"@,
        KeyWord::Class => "class"@,
        KeyWord::Else => "else"@,
        KeyWord::False => "false"@,
        KeyWord::Fun => "fun"@,
        KeyWord::For => "for"@,
        KeyWord::If => "if"@,
        KeyWord::Nil => "nil"@,
        KeyWord::Or => "or"@,
        KeyWord::Print => "print"@,
        KeyWord::Return => "return"@,
        KeyWord::Super => "super"@,
        KeyWord::This => "this"@,
        KeyWord::True => "true"@,
        KeyWord::Var => "var"@,
        KeyWord::While => "while"@,
    }
}

/// The keyword spelled by `w`, if any.
pub open spec fn keyword_of(w: Seq<char>) -> Option<KeyWord> {
    if w == "and"@ { Some(KeyWord::And) }
    else if w == "class"@ { Some(KeyWord::Class) }
    else if w == "else"@ { Some(KeyWord::Else) }
    else if w == "false"@ { Some(KeyWord::False) }
    else if w == "fun"@ { Some(KeyWord::Fun) }
    else if w == "for"@ { Some(KeyWord::For) }
    else if w == "if"@ { Some(KeyWord::If) }
    else if w == "nil"@ { Some(KeyWord::Nil) }
    else if w == "or"@ { Some(KeyWord::Or) }
    else if w == "print"@ { Some(KeyWord::Print) }
    else if w == "return"@ { Some(KeyWord::Return) }
    else if w == "super"@ { Some(KeyWord::Super) }
    else if w == "this"@ { Some(KeyWord::This) }
    else if w == "true"@ { Some(KeyWord::True) }
    else if w == "var"@ { Some(KeyWord::Var) }
    else if w == "while"@ { Some(KeyWord::While) }
    else { None }
}

impl KeyWord {
    /// The spelling of this keyword.
    pub fn text(&self) -> (r: &'static str)
        ensures
            r@ == keyword_text(*self),
    {
        match self {
            KeyWord::And => "and",
            KeyWord::Class => "class",
            KeyWord::Else => "else",
            KeyWord::False => "false",
            KeyWord::Fun => "fun",
            KeyWord::For => "for",
            KeyWord::If => "if",
            KeyWord::Nil => "nil",
            KeyWord::Or => "or",
            KeyWord::Print => "print",
            KeyWord::Return => "return",
            KeyWord::Super => "super",
            KeyWord::This => "this",
            KeyWord::True => "true",
            KeyWord::Var => "var",
            KeyWord::While => "while",
        }
    }
}

/// Whether `w[start..end]` spells exactly `lit`.
fn spells(w: &Vec<char>, start: usize, end: usize, lit: &str) -> (r: bool)
    requires
        start <= end <= w@.len(),
    ensures
        r == (w@.subrange(start as int, end as int) == lit@),
{
    let n = lit.unicode_len();
    if end - start != n {
        return false;
    }
    let mut k: usize = 0;
    while k < n
        invariant
            n == lit@.len(),
            end - start == n,
            start <= end <= w@.len(),
            k <= n,
            forall|j: int| 0 <= j < k ==> w@[start + j] == lit@[j],
        decreases n - k,
    {
        if w[start + k] != lit.get_char(k) {
            assert(w@.subrange(start as int, end as int)[k as int] != lit@[k as int]);
            return false;
        }
        k += 1;
    }
    assert(w@.subrange(start as int, end as int) =~= lit@);
    true
}

/// The keyword spelled by `w[start..end]`, if any.
pub fn keyword_at(w: &Vec<char>, start: usize, end: usize) -> (r: Option<KeyWord>)
    requires
        start <= end <= w@.len(),
    ensures
        r == keyword_of(w@.subrange(start as int, end as int)),
{
    if spells(w, start, end, "and") { Some(KeyWord::And) }
    else if spells(w, start, end, "class") { Some(KeyWord::Class) }
    else if spells(w, start, end, "else") { Some(KeyWord::Else) }
    else if spells(w, start, end, "false") { Some(KeyWord::False) }
    else if spells(w, start, end, "fun") { Some(KeyWord::Fun) }
    else if spells(w, start, end, "for") { Some(KeyWord::For) }
    else if spells(w, start, end, "if") { Some(KeyWord::If) }
    else if spells(w, start, end, "nil") { Some(KeyWord::Nil) }
    else if spells(w, start, end, "or") { Some(KeyWord::Or) }
    else if spells(w, start, end, "print") { Some(KeyWord::Print) }
    else if spells(w, start, end, "return") { Some(KeyWord::Return) }
    else if spells(w, start, end, "super") { Some(KeyWord::Super) }
    else if spells(w, start, end, "this") { Some(KeyWord::This) }
    else if spells(w, start, end, "true") { Some(KeyWord::True) }
    else if spells(w, start, end, "var") { Some(KeyWord::Var) }
    else if spells(w, start, end, "while") { Some(KeyWord::While) }
    else { None }
}

/// A lexical unit as produced by the lexer.
#[derive(Debug, Clone, PartialEq)]
pub enum TokenType {
    LeftParen,
    RightParen,
    LeftBrace,
    RightBrace,
    Comma,
    Dot,
    Minus,
    Plus,
    Semicolon,
    Star,
    Bang,
    BangEqual,
    Equal,
    EqualEqual,
    Greater,
    GreaterEqual,
    Less,
    LessEqual,
    Slash,
    Space,
    Tab,
    NewLine,
    String(String),
    Number(Number),
    Identifier(String),
    KeyWord(KeyWord),
}

/// The mathematical model of a token: text is a sequence of characters.
pub enum Tok {
    LeftParen,
    RightParen,
    LeftBrace,
    RightBrace,
    Comma,
    Dot,
    Minus,
    Plus,
    Semicolon,
    Star,
    Bang,
    BangEqual,
    Equal,
    EqualEqual,
    Greater,
    GreaterEqual,
    Less,
    LessEqual,
    Slash,
    Space,
    Tab,
    NewLine,
    Str(Seq<char>),
    Number(Number),
    Identifier(Seq<char>),
    KeyWord(KeyWord),
}

impl View for TokenType {
    type V = Tok;

    open spec fn view(&self) -> Tok {
        match self {
            TokenType::LeftParen => Tok::LeftParen,
            TokenType::RightParen => Tok::RightParen,
            TokenType::LeftBrace => Tok::LeftBrace,
            TokenType::RightBrace => Tok::RightBrace,
            TokenType::Comma => Tok::Comma,
            TokenType::Dot => Tok::Dot,
            TokenType::Minus => Tok::Minus,
            TokenType::Plus => Tok::Plus,
            TokenType::Semicolon => Tok::Semicolon,
            TokenType::Star => Tok::Star,
            TokenType::Bang => Tok::Bang,
            TokenType::BangEqual => Tok::BangEqual,
            TokenType::Equal => Tok::Equal,
            TokenType::EqualEqual => Tok::EqualEqual,
            TokenType::Greater => Tok::Greater,
            TokenType::GreaterEqual => Tok::GreaterEqual,
            TokenType::Less => Tok::Less,
            TokenType::LessEqual => Tok::LessEqual,
            TokenType::Slash => Tok::Slash,
            TokenType::Space => Tok::Space,
            TokenType::Tab => Tok::Tab,
            TokenType::NewLine => Tok::NewLine,
            TokenType::String(s) => Tok::Str(s@),
            TokenType::Number(n) => Tok::Number(*n),
            TokenType::Identifier(s) => Tok::Identifier(s@),
            TokenType::KeyWord(k) => Tok::KeyWord(*k),
        }
    }
}

/// The models of a sequence of tokens.
pub open spec fn toks(ts: Seq<TokenType>) -> Seq<Tok> {
    ts.map_values(|t: TokenType| t@)
}

/// The token that the single character `c` stands for, if it stands alone.
pub open spec fn char_token(c: char) -> Option<Tok> {
    match c {
        '(' => Some(Tok::LeftParen),
        ')' => Some(Tok::RightParen),
        '{' => Some(Tok::LeftBrace),
        '}' => Some(Tok::RightBrace),
        ',' => Some(Tok::Comma),
        '.' => Some(Tok::Dot),
        '-' => Some(Tok::Minus),
        '+' => Some(Tok::Plus),
        ';' => Some(Tok::Semicolon),
        '*' => Some(Tok::Star),
        '!' => Some(Tok::Bang),
        '=' => Some(Tok::Equal),
        '>' => Some(Tok::Greater),
        '<' => Some(Tok::Less),
        '/' => Some(Tok::Slash),
        ' ' => Some(Tok::Space),
        '\t' => Some(Tok::Tab),
        '\n' => Some(Tok::NewLine),
        _ => None,
    }
}

/// Whether a token is whitespace, which is dropped before parsing.
pub open spec fn is_whitespace(t: Tok) -> bool {
    t is Space || t is Tab || t is NewLine
}

impl TokenType {
    /// The token for a character that stands alone; `None` for any other
    /// character.
    pub fn from_char(s: char) -> (r: Option<TokenType>)
        ensures
            match r {
                Some(t) => char_token(s) == Some(t@),
                None => char_token(s) is None,
            },
    {
        match s {
            '(' => Some(TokenType::LeftParen),
            ')' => Some(TokenType::RightParen),
            '{' => Some(TokenType::LeftBrace),
            '}' => Some(TokenType::RightBrace),
            ',' => Some(TokenType::Comma),
            '.' => Some(TokenType::Dot),
            '-' => Some(TokenType::Minus),
            '+' => Some(TokenType::Plus),
            ';' => Some(TokenType::Semicolon),
            '*' => Some(TokenType::Star),
            '!' => Some(TokenType::Bang),
            '=' => Some(TokenType::Equal),
            '>' => Some(TokenType::Greater),
            '<' => Some(TokenType::Less),
            '/' => Some(TokenType::Slash),
            ' ' => Some(TokenType::Space),
            '\t' => Some(TokenType::Tab),
            '\n' => Some(TokenType::NewLine),
            _ => None,
        }
    }

    /// Whether this token is whitespace.
    pub fn is_skippable(&self) -> (r: bool)
        ensures
            r == is_whitespace(self@),
    {
        match self {
            TokenType::Space | TokenType::Tab | TokenType::NewLine => true,
            _ => false,
        }
    }
}

/// The tokens of `ts` that are not whitespace, in order.
pub open spec fn without_whitespace(ts: Seq<Tok>) -> Seq<Tok> {
    ts.filter(|t: Tok| !is_whitespace(t))
}

/// Drops the whitespace tokens, keeping the order of the others.
pub fn strip_whitespace(tokens: &Vec<TokenType>) -> (r: Vec<TokenType>)
    ensures
        toks(r@) == without_whitespace(toks(tokens@)),
{
    let mut out: Vec<TokenType> = Vec::new();
    let mut i: usize = 0;
    while i < tokens.len()
        invariant
            i <= tokens@.len(),
            toks(out@) == without_whitespace(toks(tokens@.subrange(0, i as int))),
        decreases tokens@.len() - i,
    {
        let t = copy_token(&tokens[i]);
        proof {
            let pre = toks(tokens@.subrange(0, i as int));
            assert(toks(tokens@.subrange(0, i + 1)) =~= pre.push(tokens@[i as int]@));
            reveal(Seq::filter);
            assert(pre.push(tokens@[i as int]@).drop_last() =~= pre);
        }
        if !t.is_skippable() {
            let ghost before = out@;
            out.push(t);
            proof {
                assert(toks(out@) =~= toks(before).push(t@));
            }
        }
        i += 1;
    }
    assert(tokens@.subrange(0, tokens@.len() as int) =~= tokens@);
    out
}

/// A copy of a token with the same model.
pub fn copy_token(t: &TokenType) -> (r: TokenType)
    ensures
        r@ == t@,
{
    match t {
        TokenType::LeftParen => TokenType::LeftParen,
        TokenType::RightParen => TokenType::RightParen,
        TokenType::LeftBrace => TokenType::LeftBrace,
        TokenType::RightBrace => TokenType::RightBrace,
        TokenType::Comma => TokenType::Comma,
        TokenType::Dot => TokenType::Dot,
        TokenType::Minus => TokenType::Minus,
        TokenType::Plus => TokenType::Plus,
        TokenType::Semicolon => TokenType::Semicolon,
        TokenType::Star => TokenType::Star,
        TokenType::Bang => TokenType::Bang,
        TokenType::BangEqual => TokenType::BangEqual,
        TokenType::Equal => TokenType::Equal,
        TokenType::EqualEqual => TokenType::EqualEqual,
        TokenType::Greater => TokenType::Greater,
        TokenType::GreaterEqual => TokenType::GreaterEqual,
        TokenType::Less => TokenType::Less,
        TokenType::LessEqual => TokenType::LessEqual,
        TokenType::Slash => TokenType::Slash,
        TokenType::Space => TokenType::Space,
        TokenType::Tab => TokenType::Tab,
        TokenType::NewLine => TokenType::NewLine,
        TokenType::String(s) => TokenType::String(s.clone()),
        TokenType::Number(n) => TokenType::Number(*n),
        TokenType::Identifier(s) => TokenType::Identifier(s.clone()),
        TokenType::KeyWord(k) => TokenType::KeyWord(*k),
    }
}

/// The decimal digit for `n`, 0 to 9.
pub open spec fn digit_char(n: int) -> char {
    if n == 0 { '0' }
    else if n == 1 { '1' }
    else if n == 2 { '2' }
    else if n == 3 { '3' }
    else if n == 4 { '4' }
    else if n == 5 { '5' }
    else if n == 6 { '6' }
    else if n == 7 { '7' }
    else if n == 8 { '8' }
    else { '9' }
}

/// The decimal text of a natural number, without leading zeros.
pub open spec fn nat_text(v: nat) -> Seq<char>
    decreases v,
{
    if v < 10 {
        seq![digit_char(v as int)]
    } else {
        nat_text(v / 10).push(digit_char((v % 10) as int))
    }
}

/// The decimal text of an integer.
pub open spec fn int_text(i: int) -> Seq<char> {
    if i < 0 { seq!['-'] + nat_text((-i) as nat) } else { nat_text(i as nat) }
}

/// How a token is written in source text. A float's text is not given here.
pub open spec fn tok_text(t: Tok) -> Seq<char> {
    match t {
        Tok::LeftParen => seq!['('],
        Tok::RightParen => seq![')'],
        Tok::LeftBrace => seq!['{'],
        Tok::RightBrace => seq!['}'],
        Tok::Comma => seq![','],
        Tok::Dot => seq!['.'],
        Tok::Minus => seq!['-'],
        Tok::Plus => seq!['+'],
        Tok::Semicolon => seq![';'],
        Tok::Star => seq!['*'],
        Tok::Bang => seq!['!'],
        Tok::BangEqual => seq!['!', '='],
        Tok::Equal => seq!['='],
        Tok::EqualEqual => seq!['=', '='],
        Tok::Greater => seq!['>'],
        Tok::GreaterEqual => seq!['>', '='],
        Tok::Less => seq!['<'],
        Tok::LessEqual => seq!['<', '='],
        Tok::Slash => seq!['/'],
        Tok::Space => seq![' '],
        Tok::Tab => seq!['\t'],
        Tok::NewLine => seq!['\n'],
        Tok::Str(x) => seq!['"'] + x + seq!['"'],
        Tok::Number(Number::Integer(v)) => int_text(v as int),
        Tok::Number(Number::Float(_)) => Seq::empty(),
        Tok::Identifier(x) => x,
        Tok::KeyWord(k) => keyword_text(k),
    }
}

fn digit_str(d: u64) -> (r: &'static str)
    requires
        d < 10,
    ensures
        r@ == seq![digit_char(d as int)],
{
    proof {
        reveal_strlit("0");
        reveal_strlit("1");
        reveal_strlit("2");
        reveal_strlit("3");
        reveal_strlit("4");
        reveal_strlit("5");
        reveal_strlit("6");
        reveal_strlit("7");
        reveal_strlit("8");
        reveal_strlit("9");
    }
    if d == 0 { "0" }
    else if d == 1 { "1" }
    else if d == 2 { "2" }
    else if d == 3 { "3" }
    else if d == 4 { "4" }
    else if d == 5 { "5" }
    else if d == 6 { "6" }
    else if d == 7 { "7" }
    else if d == 8 { "8" }
    else { "9" }
}

/// The decimal text of an integer.
pub fn integer_text(i: i64) -> (r: String)
    ensures
        r@ == int_text(i as int),
{
    let mut v: u64 = if i < 0 { (-(i as i128)) as u64 } else { i as u64 };
    let ghost whole = v as nat;
    let mut suffix = String::new();
    while v >= 10
        invariant
            nat_text(whole) == nat_text(v as nat) + suffix@,
        decreases v,
    {
        let d = v % 10;
        let ghost before = suffix@;
        suffix = digit_str(d).to_owned().concat(suffix.as_str());
        assert(nat_text(v as nat) == nat_text((v / 10) as nat).push(digit_char(d as int)));
        assert(nat_text((v / 10) as nat).push(digit_char(d as int)) + before =~= nat_text(
            (v / 10) as nat,
        ) + suffix@);
        v = v / 10;
    }
    let body = digit_str(v).to_owned().concat(suffix.as_str());
    if i < 0 {
        proof {
            reveal_strlit("-");
        }
        let r = "-".to_owned().concat(body.as_str());
        assert(r@ =~= seq!['-'] + nat_text(whole));
        r
    } else {
        body
    }
}

impl TokenType {
    /// How this token is written in source text; `float_text` writes a
    /// float from its bit pattern.
    pub fn text<F: Fn(u64) -> String>(&self, float_text: &F) -> (r: String)
        requires
            forall|b: u64| #[trigger] float_text.requires((b,)),
        ensures
            !(self@ matches Tok::Number(Number::Float(_))) ==> r@ == tok_text(self@),
            self@ matches Tok::Number(Number::Float(b)) ==> float_text.ensures((b,), r),
    {
        proof {
            reveal_strlit("(");
            reveal_strlit(")");
            reveal_strlit("{");
            reveal_strlit("}");
            reveal_strlit(",");
            reveal_strlit(".");
            reveal_strlit("-");
            reveal_strlit("+");
            reveal_strlit(";");
            reveal_strlit("*");
            reveal_strlit("!");
            reveal_strlit("!=");
            reveal_strlit("=");
            reveal_strlit("==");
            reveal_strlit(">");
            reveal_strlit(">=");
            reveal_strlit("<");
            reveal_strlit("<=");
            reveal_strlit("/");
            reveal_strlit(" ");
            reveal_strlit("\t");
            reveal_strlit("\n");
            reveal_strlit("\"");
        }
        match self {
            TokenType::LeftParen => "(".to_owned(),
            TokenType::RightParen => ")".to_owned(),
            TokenType::LeftBrace => "{".to_owned(),
            TokenType::RightBrace => "}".to_owned(),
            TokenType::Comma => ",".to_owned(),
            TokenType::Dot => ".".to_owned(),
            TokenType::Minus => "-".to_owned(),
            TokenType::Plus => "+".to_owned(),
            TokenType::Semicolon => ";".to_owned(),
            TokenType::Star => "*".to_owned(),
            TokenType::Bang => "!".to_owned(),
            TokenType::BangEqual => "!=".to_owned(),
            TokenType::Equal => "=".to_owned(),
            TokenType::EqualEqual => "==".to_owned(),
            TokenType::Greater => ">".to_owned(),
            TokenType::GreaterEqual => ">=".to_owned(),
            TokenType::Less => "<".to_owned(),
            TokenType::LessEqual => "<=".to_owned(),
            TokenType::Slash => "/".to_owned(),
            TokenType::Space => " ".to_owned(),
            TokenType::Tab => "\t".to_owned(),
            TokenType::NewLine => "\n".to_owned(),
            TokenType::String(x) => {
                let r = "\"".to_owned().concat(x.as_str()).concat("\"");
                assert(r@ =~= seq!['"'] + x@ + seq!['"']);
                r
            },
            TokenType::Number(Number::Integer(v)) => integer_text(*v),
            TokenType::Number(Number::Float(b)) => float_text(*b),
            TokenType::Identifier(x) => x.clone(),
            TokenType::KeyWord(k) => k.text().to_owned(),
        }
    }
}

} // verus!
