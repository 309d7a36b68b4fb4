//! The scanner: turns source text into a sequence of tokens, each tagged with
//! the line it was found on, or reports the first lexical error.
use std::collections::VecDeque;
use vstd::prelude::*;

verus! {

/// What a token is: its kind, and for literals and identifiers its text.
#[derive(Clone, Debug, PartialEq)]
pub enum TokenType {
    // single-character tokens
    LeftParen,
    RightParen,
    LeftBrace,
    RightBrace,
    Comma,
    Dot,
    Minus,
    Plus,
    Semicolon,
    Slash,
    Star,
    // one- or two-character tokens
    Bang,
    BangEqual,
    Equal,
    EqualEqual,
    Greater,
    GreaterEqual,
    Less,
    LessEqual,
    // literals: a number is held as its decimal text
    Identifier(String),
    Str(String),
    Number(String),
    // keywords
    And,
    Class,
    Else,
    False,
    Fun,
    For,
    If,
    Nil,
    Or,
    Print,
    Return,
    Super,
    This,
    True,
    Var,
    While,
    EOF,
}

/// A token and the line it stands on.
#[derive(Debug, PartialEq)]
pub struct Token {
    pub type_: TokenType,
    pub line: usize,
}

/// A lexical error; scanning stops at the first one.
#[derive(Debug, PartialEq)]
pub enum Error {
    BadChar { c: char, line: usize },
    UnterminatedString { line: usize },
    /// A number literal that does not read as a number. Every literal that
    /// this scanner takes for a number is digits with at most one dot among
    /// or after them, which always reads, so the scanner never reports it.
    NumberParse { literal: String, line: usize },
}

/// The mathematical form of a token kind: the payload of a literal or an
/// identifier as a sequence of characters, every other kind as itself.
pub enum Kind {
    Fixed(TokenType),
    Identifier(Seq<char>),
    Str(Seq<char>),
    Number(Seq<char>),
}

/// The mathematical form of a token.
pub struct TokenView {
    pub kind: Kind,
    pub line: nat,
}

/// The mathematical form of a lexical error.
pub enum Fault {
    BadChar { c: char, line: nat },
    UnterminatedString { line: nat },
    NumberParse { literal: Seq<char>, line: nat },
}

impl View for TokenType {
    type V = Kind;

    open spec fn view(&self) -> Kind {
        match self {
            TokenType::Identifier(s) => Kind::Identifier(s@),
            TokenType::Str(s) => Kind::Str(s@),
            TokenType::Number(s) => Kind::Number(s@),
            _ => Kind::Fixed(*self),
        }
    }
}

impl View for Token {
    type V = TokenView;

    open spec fn view(&self) -> TokenView {
        TokenView { kind: self.type_@, line: self.line as nat }
    }
}

impl View for Error {
    type V = Fault;

    open spec fn view(&self) -> Fault {
        match self {
            Error::BadChar { c, line } => Fault::BadChar { c: *c, line: *line as nat },
            Error::UnterminatedString { line } => Fault::UnterminatedString { line: *line as nat },
            Error::NumberParse { literal, line } => Fault::NumberParse {
                literal: literal@,
                line: *line as nat,
            },
        }
    }
}

/// The tokens of a sequence, in their mathematical form.
pub open spec fn token_views(ts: Seq<Token>) -> Seq<TokenView> {
    ts.map_values(|t: Token| t@)
}

/// Puts `first` before the tokens of a scan that did not fail.
pub open spec fn prepend(first: Seq<TokenView>, r: Result<Seq<TokenView>, Fault>) -> Result<
    Seq<TokenView>,
    Fault,
> {
    match r {
        Ok(ts) => Ok(first + ts),
        Err(f) => Err(f),
    }
}

/// How a token kind is written: the payload of a literal or an identifier,
/// the spelling of every other kind.
pub open spec fn kind_text(t: TokenType) -> Seq<char> {
    match t {
        TokenType::Identifier(s) => s@,
        TokenType::Str(s) => s@,
        TokenType::Number(s) => s@,
        TokenType::LeftParen => "("@,
        TokenType::RightParen => ")"@,
        TokenType::LeftBrace => "{"@,
        TokenType::RightBrace => "}"@,
        TokenType::Comma => ","@,
        TokenType::Dot => "."@,
        TokenType::Minus => "-"@,
        TokenType::Plus => "+"@,
        TokenType::Semicolon => ";"@,
        TokenType::Slash => "/"@,
        TokenType::Star => "*"@,
        TokenType::Bang => "!"@,
        TokenType::BangEqual => "!="@,
        TokenType::Equal => "="@,
        TokenType::EqualEqual => "=="@,
        TokenType::Greater => ">"@,
        TokenType::GreaterEqual => ">="@,
        TokenType::Less => "<"@,
        TokenType::LessEqual => "<="@,
        TokenType::And => "and"@,
        TokenType::Class => "class"@,
        TokenType::Else => "else"@,
        TokenType::False => "false"@,
        TokenType::Fun => "fun"@,
        TokenType::For => "for"@,
        TokenType::If => "if"@,
        TokenType::Nil => "nil"@,
        TokenType::Or => "or"@,
        TokenType::Print => "print"@,
        TokenType::Return => "return"@,
        TokenType::Super => "super"@,
        TokenType::This => "this"@,
        TokenType::True => "true"@,
        TokenType::Var => "var"@,
        TokenType::While => "while"@,
        TokenType::EOF => "EOF"@,
    }
}

/// The outcome of a whole scan, in mathematical form.
pub open spec fn scan_view(r: Result<Vec<Token>, Error>) -> Result<Seq<TokenView>, Fault> {
    match r {
        Ok(ts) => Ok(token_views(ts@)),
        Err(e) => Err(e@),
    }
}

pub open spec fn is_digit(c: char) -> bool {
    '0' <= c && c <= '9'
}

pub open spec fn is_alpha(c: char) -> bool {
    ('a' <= c && c <= 'z') || ('A' <= c && c <= 'Z') || c == '_'
}

/// Characters that continue an identifier.
pub open spec fn is_word_char(c: char) -> bool {
    is_alpha(c) || is_digit(c)
}

/// The runs of characters that make up one token.
#[derive(Clone, Copy)]
pub enum Run {
    /// the body of a string literal
    StringBody,
    Digits,
    Word,
}

/// Whether `c` may stand in a run of the given sort.
pub open spec fn in_run(run: Run, c: char) -> bool {
    match run {
        Run::StringBody => c != '"',
        Run::Digits => is_digit(c),
        Run::Word => is_word_char(c),
    }
}

/// The length of the longest prefix of `s` that is a run of the given sort.
pub open spec fn prefix_len(s: Seq<char>, run: Run) -> nat
    decreases s.len(),
{
    if s.len() > 0 && in_run(run, s[0]) {
        1 + prefix_len(s.drop_first(), run)
    } else {
        0
    }
}

/// How many times `c` occurs in `s`.
pub open spec fn count(s: Seq<char>, c: char) -> nat
    decreases s.len(),
{
    if s.len() == 0 {
        0
    } else {
        (if s[0] == c { 1nat } else { 0nat }) + count(s.drop_first(), c)
    }
}

/// The token of a single-character punctuation mark that never starts a
/// longer token.
pub open spec fn punctuation(c: char) -> Option<TokenType> {
    if c == '(' {
        Some(TokenType::LeftParen)
    } else if c == ')' {
        Some(TokenType::RightParen)
    } else if c == '{' {
        Some(TokenType::LeftBrace)
    } else if c == '}' {
        Some(TokenType::RightBrace)
    } else if c == ',' {
        Some(TokenType::Comma)
    } else if c == '.' {
        Some(TokenType::Dot)
    } else if c == '-' {
        Some(TokenType::Minus)
    } else if c == '+' {
        Some(TokenType::Plus)
    } else if c == ';' {
        Some(TokenType::Semicolon)
    } else if c == '*' {
        Some(TokenType::Star)
    } else {
        None
    }
}

/// For `!`, `=`, `>` and `<`: the one-character token and the token that the
/// character forms together with a following `=`.
pub open spec fn operator(c: char) -> Option<(TokenType, TokenType)> {
    if c == '!' {
        Some((TokenType::Bang, TokenType::BangEqual))
    } else if c == '=' {
        Some((TokenType::Equal, TokenType::EqualEqual))
    } else if c == '>' {
        Some((TokenType::Greater, TokenType::GreaterEqual))
    } else if c == '<' {
        Some((TokenType::Less, TokenType::LessEqual))
    } else {
        None
    }
}

/// The keyword spelled by `w`, if any.
pub open spec fn keyword(w: Seq<char>) -> Option<TokenType> {
    if w == "and"@ {
        Some(TokenType::And)
    } else if w == "class"@ {
        Some(TokenType::Class)
    } else if w == "else"@ {
        Some(TokenType::Else)
    } else if w == "false"@ {
        Some(TokenType::False)
    } else if w == "for"@ {
        Some(TokenType::For)
    } else if w == "fun"@ {
        Some(TokenType::Fun)
    } else if w == "if"@ {
        Some(TokenType::If)
    } else if w == "nil"@ {
        Some(TokenType::Nil)
    } else if w == "or"@ {
        Some(TokenType::Or)
    } else if w == "print"@ {
        Some(TokenType::Print)
    } else if w == "return"@ {
        Some(TokenType::Return)
    } else if w == "super"@ {
        Some(TokenType::Super)
    } else if w == "this"@ {
        Some(TokenType::This)
    } else if w == "true"@ {
        Some(TokenType::True)
    } else if w == "var"@ {
        Some(TokenType::Var)
    } else if w == "while"@ {
        Some(TokenType::While)
    } else {
        None
    }
}

/// Skips spaces, tabs, carriage returns, newlines and `//` comments from the
/// front of `s`, counting newlines into `line`. `in_comment` says that a
/// comment is open, which the next newline closes. Returns what is left and
/// the line it starts on.
pub open spec fn skip_blank(s: Seq<char>, line: nat, in_comment: bool) -> (Seq<char>, nat)
    decreases s.len(),
{
    if s.len() == 0 {
        (s, line)
    } else if s[0] == '\n' {
        skip_blank(s.drop_first(), line + 1, false)
    } else if in_comment || s[0] == ' ' || s[0] == '\r' || s[0] == '\t' {
        skip_blank(s.drop_first(), line, in_comment)
    } else if s.len() > 1 && s[0] == '/' && s[1] == '/' {
        skip_blank(s.subrange(2, s.len() as int), line, true)
    } else {
        (s, line)
    }
}

/// The length of the number literal at the front of `s`: its digits, then,
/// where a dot follows them, the dot and the digits after it.
pub open spec fn number_len(s: Seq<char>) -> nat {
    let whole = prefix_len(s, Run::Digits);
    if whole < s.len() && s[whole as int] == '.' {
        whole + 1 + prefix_len(s.skip(whole + 1int), Run::Digits)
    } else {
        whole
    }
}

/// Scans the one token that starts `s` on `line`: its kind or the lexical
/// error there, what is left after it, and the line the scan ends on. An
/// unterminated string takes the rest of the text; a bad character is
/// taken alone. `s` is not empty and does not start with a blank or a
/// comment.
pub open spec fn lex_one(s: Seq<char>, line: nat) -> (Result<Kind, Fault>, Seq<char>, nat) {
    let c = s[0];
    let rest = s.drop_first();
    if punctuation(c) is Some {
        (Ok(Kind::Fixed(punctuation(c)->0)), rest, line)
    } else if let Some((single, double)) = operator(c) {
        if rest.len() > 0 && rest[0] == '=' {
            (Ok(Kind::Fixed(double)), rest.drop_first(), line)
        } else {
            (Ok(Kind::Fixed(single)), rest, line)
        }
    } else if c == '/' {
        (Ok(Kind::Fixed(TokenType::Slash)), rest, line)
    } else if c == '"' {
        let n = prefix_len(rest, Run::StringBody);
        if n == rest.len() {
            let end = line + count(rest, '\n');
            (Err(Fault::UnterminatedString { line: end }), seq![], end)
        } else {
            let body = rest.take(n as int);
            (Ok(Kind::Str(body)), rest.skip(n + 1int), line + count(body, '\n'))
        }
    } else if is_digit(c) {
        let n = number_len(s);
        (Ok(Kind::Number(s.take(n as int))), s.skip(n as int), line)
    } else if is_alpha(c) {
        let n = prefix_len(s, Run::Word);
        let word = s.take(n as int);
        match keyword(word) {
            Some(k) => (Ok(Kind::Fixed(k)), s.skip(n as int), line),
            None => (Ok(Kind::Identifier(word)), s.skip(n as int), line),
        }
    } else {
        (Err(Fault::BadChar { c, line }), rest, line)
    }
}

/// One step of the scanner: the token or the lexical error met, the text
/// left after it, and the line there.
pub struct Step {
    pub outcome: Result<TokenView, Fault>,
    pub rest: Seq<char>,
    pub line: nat,
}

/// One step of the scanner on the text `s`, which starts on `line`: the next
/// token, or the end-of-stream token once only blanks and comments are left,
/// or the lexical error met.
pub open spec fn next_token(s: Seq<char>, line: nat) -> Step {
    let (r, l) = skip_blank(s, line, false);
    if r.len() == 0 {
        Step { outcome: Ok(TokenView { kind: Kind::Fixed(TokenType::EOF), line: l }), rest: r, line: l }
    } else {
        let (outcome, rest, l2) = lex_one(r, l);
        Step {
            outcome: match outcome {
                Ok(k) => Ok(TokenView { kind: k, line: l2 }),
                Err(f) => Err(f),
            },
            rest,
            line: l2,
        }
    }
}

/// The front of `before` that was taken off to leave `after`.
pub open spec fn consumed(before: Seq<char>, after: Seq<char>) -> Seq<char> {
    before.take(before.len() - after.len())
}

/// The whole scan of `s` from `line`: every token up to and including the
/// end-of-stream token, or the first lexical error.
pub open spec fn scan(s: Seq<char>, line: nat) -> Result<Seq<TokenView>, Fault>
    decreases s.len(),
{
    let step = next_token(s, line);
    match step.outcome {
        Err(f) => Err(f),
        Ok(t) => if t.kind == Kind::Fixed(TokenType::EOF) {
            Ok(seq![t])
        } else {
            proof {
                lemma_next_token_shortens(s, line);
            }
            prepend(seq![t], scan(step.rest, step.line))
        },
    }
}

pub proof fn lemma_prepend_twice(a: Seq<TokenView>, b: Seq<TokenView>, r: Result<Seq<TokenView>, Fault>)
    ensures
        prepend(a, prepend(b, r)) == prepend(a + b, r),
{
    if let Ok(ts) = r {
        assert(a + (b + ts) =~= (a + b) + ts);
    }
}

pub proof fn lemma_prefix_len_bound(s: Seq<char>, run: Run)
    ensures
        prefix_len(s, run) <= s.len(),
    decreases s.len(),
{
    if s.len() > 0 && in_run(run, s[0]) {
        lemma_prefix_len_bound(s.drop_first(), run);
    }
}

pub proof fn lemma_skip_blank_shortens(s: Seq<char>, line: nat, in_comment: bool)
    ensures
        skip_blank(s, line, in_comment).0.len() <= s.len(),
        line <= skip_blank(s, line, in_comment).1,
        skip_blank(s, line, in_comment).1 + skip_blank(s, line, in_comment).0.len() <= line
            + s.len(),
    decreases s.len(),
{
    if s.len() == 0 {
    } else if s[0] == '\n' {
        lemma_skip_blank_shortens(s.drop_first(), line + 1, false);
    } else if in_comment || s[0] == ' ' || s[0] == '\r' || s[0] == '\t' {
        lemma_skip_blank_shortens(s.drop_first(), line, in_comment);
    } else if s.len() > 1 && s[0] == '/' && s[1] == '/' {
        lemma_skip_blank_shortens(s.subrange(2, s.len() as int), line, true);
    }
}

/// A token other than the end-of-stream token consumes at least one character.
pub proof fn lemma_next_token_shortens(s: Seq<char>, line: nat)
    ensures
        next_token(s, line).outcome matches Ok(t) ==> t.kind != Kind::Fixed(TokenType::EOF)
            ==> next_token(s, line).rest.len() < s.len(),
{
    lemma_skip_blank_shortens(s, line, false);
    let r = skip_blank(s, line, false).0;
    if r.len() > 0 {
        lemma_prefix_len_bound(r.drop_first(), Run::StringBody);
        lemma_number_len_bound(r);
        lemma_prefix_len_bound(r, Run::Word);
    }
}

pub proof fn lemma_number_len_bound(s: Seq<char>)
    ensures
        number_len(s) <= s.len(),
{
    let whole = prefix_len(s, Run::Digits);
    lemma_prefix_len_bound(s, Run::Digits);
    if whole < s.len() && s[whole as int] == '.' {
        lemma_prefix_len_bound(s.skip(whole + 1int), Run::Digits);
    }
}

pub proof fn lemma_prefix_len_exact(s: Seq<char>, run: Run, n: nat)
    requires
        n <= s.len(),
        forall|j: int| 0 <= j < n ==> #[trigger] in_run(run, s[j]),
        n == s.len() || !in_run(run, s[n as int]),
    ensures
        prefix_len(s, run) == n,
    decreases n,
{
    if n > 0 {
        assert forall|j: int| 0 <= j < n - 1 implies #[trigger] in_run(run, s.drop_first()[j]) by {
            assert(in_run(run, s[j + 1]));
        }
        lemma_prefix_len_exact(s.drop_first(), run, (n - 1) as nat);
    }
}

pub proof fn lemma_count_push(s: Seq<char>, x: char, c: char)
    ensures
        count(s.push(x), c) == count(s, c) + (if x == c { 1nat } else { 0nat }),
    decreases s.len(),
{
    if s.len() == 0 {
        assert(s.push(x).drop_first() =~= s);
    } else {
        lemma_count_push(s.drop_first(), x, c);
        assert(s.push(x).drop_first() =~= s.drop_first().push(x));
    }
}

pub proof fn lemma_count_concat(a: Seq<char>, b: Seq<char>, c: char)
    ensures
        count(a + b, c) == count(a, c) + count(b, c),
    decreases a.len(),
{
    if a.len() == 0 {
        assert(a + b =~= b);
    } else {
        lemma_count_concat(a.drop_first(), b, c);
        assert((a + b).drop_first() =~= a.drop_first() + b);
    }
}

pub proof fn lemma_count_absent(s: Seq<char>, c: char)
    requires
        forall|i: int| 0 <= i < s.len() ==> s[i] != c,
    ensures
        count(s, c) == 0,
    decreases s.len(),
{
    if s.len() > 0 {
        assert forall|i: int| 0 <= i < s.drop_first().len() implies s.drop_first()[i] != c by {
            assert(s[i + 1] != c);
        }
        lemma_count_absent(s.drop_first(), c);
    }
}

pub proof fn lemma_count_first(x: char, s: Seq<char>, c: char)
    ensures
        count(seq![x] + s, c) == count(s, c) + (if x == c { 1nat } else { 0nat }),
{
    assert((seq![x] + s).drop_first() =~= s);
}

pub proof fn lemma_prefix_len_all(s: Seq<char>, run: Run)
    ensures
        forall|i: int| 0 <= i < prefix_len(s, run) ==> #[trigger] in_run(run, s[i]),
        prefix_len(s, run) < s.len() ==> !in_run(run, s[prefix_len(s, run) as int]),
    decreases s.len(),
{
    lemma_prefix_len_bound(s, run);
    if s.len() > 0 && in_run(run, s[0]) {
        lemma_prefix_len_all(s.drop_first(), run);
        assert forall|i: int| 0 <= i < prefix_len(s, run) implies #[trigger] in_run(run, s[i]) by {
            if i > 0 {
                assert(s[i] == s.drop_first()[i - 1]);
            }
        }
    }
}

/// Skipping blanks and comments takes a prefix of the text and counts the
/// newlines in it; what is left does not start with a newline.
pub proof fn lemma_skip_blank_consumes(s: Seq<char>, line: nat, in_comment: bool)
    ensures
        ({
            let (r, l) = skip_blank(s, line, in_comment);
            &&& r.len() <= s.len()
            &&& s == consumed(s, r) + r
            &&& l == line + count(consumed(s, r), '\n')
            &&& r.len() > 0 ==> r[0] != '\n'
        }),
    decreases s.len(),
{
    let (r, l) = skip_blank(s, line, in_comment);
    if s.len() == 0 {
        assert(consumed(s, r) =~= Seq::<char>::empty());
    } else if s[0] == '\n' {
        let t = s.drop_first();
        lemma_skip_blank_consumes(t, line + 1, false);
        assert(skip_blank(s, line, in_comment) == skip_blank(t, line + 1, false));
        assert(t == consumed(t, r) + r);
        assert(consumed(s, r) =~= seq![s[0]] + consumed(t, r));
        lemma_count_first(s[0], consumed(t, r), '\n');
        assert(s =~= seq![s[0]] + t);
        assert(consumed(s, r) + r =~= seq![s[0]] + (consumed(t, r) + r));
    } else if in_comment || s[0] == ' ' || s[0] == '\r' || s[0] == '\t' {
        let t = s.drop_first();
        lemma_skip_blank_consumes(t, line, in_comment);
        assert(skip_blank(s, line, in_comment) == skip_blank(t, line, in_comment));
        assert(t == consumed(t, r) + r);
        assert(consumed(s, r) =~= seq![s[0]] + consumed(t, r));
        lemma_count_first(s[0], consumed(t, r), '\n');
        assert(s =~= seq![s[0]] + t);
        assert(consumed(s, r) + r =~= seq![s[0]] + (consumed(t, r) + r));
    } else if s.len() > 1 && s[0] == '/' && s[1] == '/' {
        let t = s.subrange(2, s.len() as int);
        lemma_skip_blank_consumes(t, line, true);
        assert(skip_blank(s, line, in_comment) == skip_blank(t, line, true));
        assert(t == consumed(t, r) + r);
        assert(consumed(s, r) =~= seq![s[0]] + (seq![s[1]] + consumed(t, r)));
        lemma_count_first(s[1], consumed(t, r), '\n');
        lemma_count_first(s[0], seq![s[1]] + consumed(t, r), '\n');
        assert(s =~= seq![s[0]] + (seq![s[1]] + t));
        assert(consumed(s, r) + r =~= seq![s[0]] + (seq![s[1]] + (consumed(t, r) + r)));
    } else {
        assert(consumed(s, r) =~= Seq::<char>::empty());
        assert(s =~= consumed(s, r) + r);
    }
}

/// Scanning one token takes at least one character off the front of the
/// text and counts the newlines among them.
pub proof fn lemma_lex_one_consumes(s: Seq<char>, line: nat)
    requires
        s.len() > 0,
        s[0] != '\n',
    ensures
        ({
            let (outcome, rest, l) = lex_one(s, line);
            &&& rest.len() < s.len()
            &&& s == consumed(s, rest) + rest
            &&& l == line + count(consumed(s, rest), '\n')
        }),
{
    let c = s[0];
    let t = s.drop_first();
    let (outcome, rest, l) = lex_one(s, line);
    lemma_prefix_len_bound(t, Run::StringBody);
    lemma_number_len_bound(s);
    lemma_prefix_len_bound(s, Run::Word);
    let k = s.len() - rest.len();
    if c == '"' && punctuation(c) is None && operator(c) is None {
        let n = prefix_len(t, Run::StringBody);
        if n == t.len() {
            assert(consumed(s, rest) =~= seq![c] + t);
            lemma_count_first(c, t, '\n');
        } else {
            lemma_prefix_len_all(t, Run::StringBody);
            assert(t[n as int] == '"');
            assert(consumed(s, rest) =~= seq![c] + (t.take(n as int) + seq!['"']));
            lemma_count_first(c, t.take(n as int) + seq!['"'], '\n');
            lemma_count_concat(t.take(n as int), seq!['"'], '\n');
            lemma_count_first('"', Seq::<char>::empty(), '\n');
            assert(seq!['"'] =~= seq!['"'] + Seq::<char>::empty());
        }
    } else {
        if is_digit(c) && punctuation(c) is None && operator(c) is None {
            let whole = prefix_len(s, Run::Digits);
            lemma_prefix_len_all(s, Run::Digits);
            lemma_prefix_len_all(s.skip(whole + 1int), Run::Digits);
            assert forall|i: int| 0 <= i < k implies consumed(s, rest)[i] != '\n' by {
                if i < whole {
                    assert(in_run(Run::Digits, s[i]));
                } else if i > whole {
                    assert(s[i] == s.skip(whole + 1int)[i - whole - 1]);
                    assert(in_run(Run::Digits, s.skip(whole + 1int)[i - whole - 1]));
                }
            }
        } else if is_alpha(c) && punctuation(c) is None && operator(c) is None {
            lemma_prefix_len_all(s, Run::Word);
            assert forall|i: int| 0 <= i < k implies consumed(s, rest)[i] != '\n' by {
                assert(in_run(Run::Word, s[i]));
            }
        } else {
            assert forall|i: int| 0 <= i < k implies consumed(s, rest)[i] != '\n' by {
                if i == 1 {
                    assert(s[1] == '=');
                }
            }
        }
        lemma_count_absent(consumed(s, rest), '\n');
    }
    assert(s =~= consumed(s, rest) + rest);
}

/// Each step of the scanner takes a prefix of the text and counts the
/// newlines in it; only the end-of-stream token may take nothing.
pub proof fn lemma_next_token_consumes(s: Seq<char>, line: nat)
    ensures
        ({
            let step = next_token(s, line);
            &&& step.rest.len() <= s.len()
            &&& s == consumed(s, step.rest) + step.rest
            &&& step.line == line + count(consumed(s, step.rest), '\n')
            &&& step.rest.len() == s.len() ==> (step.outcome matches Ok(t) && t.kind
                == Kind::Fixed(TokenType::EOF))
        }),
{
    lemma_skip_blank_consumes(s, line, false);
    let (r, l) = skip_blank(s, line, false);
    if r.len() > 0 {
        lemma_lex_one_consumes(r, l);
        let rest = lex_one(r, l).1;
        assert(consumed(s, rest) =~= consumed(s, r) + consumed(r, rest));
        lemma_count_concat(consumed(s, r), consumed(r, rest), '\n');
        assert(s =~= consumed(s, rest) + rest);
    }
}

/// One token for each punctuation mark of `s`, all on `line`.
pub open spec fn punctuation_tokens(s: Seq<char>, line: nat) -> Seq<TokenView> {
    s.map_values(|c: char| TokenView { kind: Kind::Fixed(punctuation(c)->0), line })
}

proof fn lemma_punctuation_scan_from(s: Seq<char>, line: nat)
    requires
        forall|i: int| 0 <= i < s.len() ==> #[trigger] punctuation(s[i]) is Some,
    ensures
        scan(s, line) == Ok::<Seq<TokenView>, Fault>(
            punctuation_tokens(s, line).push(TokenView { kind: Kind::Fixed(TokenType::EOF), line }),
        ),
    decreases s.len(),
{
    let eof = TokenView { kind: Kind::Fixed(TokenType::EOF), line };
    if s.len() == 0 {
        assert(punctuation_tokens(s, line).push(eof) =~= seq![eof]);
    } else {
        assert(punctuation(s[0]) is Some);
        let t = TokenView { kind: Kind::Fixed(punctuation(s[0])->0), line };
        assert(skip_blank(s, line, false) == (s, line));
        assert(next_token(s, line) == Step {
            outcome: Ok::<TokenView, Fault>(t),
            rest: s.drop_first(),
            line,
        });
        assert forall|i: int| 0 <= i < s.drop_first().len() implies #[trigger] punctuation(
            s.drop_first()[i],
        ) is Some by {
            assert(punctuation(s[i + 1]) is Some);
        }
        lemma_punctuation_scan_from(s.drop_first(), line);
        assert(seq![t] + punctuation_tokens(s.drop_first(), line).push(eof) =~= punctuation_tokens(
            s,
            line,
        ).push(eof));
    }
}

/// A text made only of single-character punctuation marks scans to one
/// token per mark, in order and all on line 0, followed by the end-of-stream
/// token.
pub proof fn punctuation_scans_one_token_each(s: Seq<char>)
    requires
        forall|i: int| 0 <= i < s.len() ==> #[trigger] punctuation(s[i]) is Some,
    ensures
        scan(s, 0) == Ok::<Seq<TokenView>, Fault>(
            punctuation_tokens(s, 0).push(TokenView { kind: Kind::Fixed(TokenType::EOF), line: 0 }),
        ),
{
    lemma_punctuation_scan_from(s, 0);
}

impl Token {
    pub fn new(type_: TokenType, line: usize) -> (r: Token)
        ensures
            r.type_ == type_,
            r.line == line,
    {
        Token { type_, line }
    }

    /// A copy of the token's kind.
    pub fn token_type(&self) -> (r: TokenType)
        ensures
            r == self.type_,
    {
        match &self.type_ {
            TokenType::Identifier(s) => TokenType::Identifier(s.clone()),
            TokenType::Str(s) => TokenType::Str(s.clone()),
            TokenType::Number(s) => TokenType::Number(s.clone()),
            TokenType::LeftParen => TokenType::LeftParen,
            TokenType::RightParen => TokenType::RightParen,
            TokenType::LeftBrace => TokenType::LeftBrace,
            TokenType::RightBrace => TokenType::RightBrace,
            TokenType::Comma => TokenType::Comma,
            TokenType::Dot => TokenType::Dot,
            TokenType::Minus => TokenType::Minus,
            TokenType::Plus => TokenType::Plus,
            TokenType::Semicolon => TokenType::Semicolon,
            TokenType::Slash => TokenType::Slash,
            TokenType::Star => TokenType::Star,
            TokenType::Bang => TokenType::Bang,
            TokenType::BangEqual => TokenType::BangEqual,
            TokenType::Equal => TokenType::Equal,
            TokenType::EqualEqual => TokenType::EqualEqual,
            TokenType::Greater => TokenType::Greater,
            TokenType::GreaterEqual => TokenType::GreaterEqual,
            TokenType::Less => TokenType::Less,
            TokenType::LessEqual => TokenType::LessEqual,
            TokenType::And => TokenType::And,
            TokenType::Class => TokenType::Class,
            TokenType::Else => TokenType::Else,
            TokenType::False => TokenType::False,
            TokenType::Fun => TokenType::Fun,
            TokenType::For => TokenType::For,
            TokenType::If => TokenType::If,
            TokenType::Nil => TokenType::Nil,
            TokenType::Or => TokenType::Or,
            TokenType::Print => TokenType::Print,
            TokenType::Return => TokenType::Return,
            TokenType::Super => TokenType::Super,
            TokenType::This => TokenType::This,
            TokenType::True => TokenType::True,
            TokenType::Var => TokenType::Var,
            TokenType::While => TokenType::While,
            TokenType::EOF => TokenType::EOF,
        }
    }
}

impl Token {
    /// The token as it is written.
    pub fn text(&self) -> (r: String)
        ensures
            r@ == kind_text(self.type_),
    {
        match &self.type_ {
            TokenType::Identifier(s) => s.clone(),
            TokenType::Str(s) => s.clone(),
            TokenType::Number(s) => s.clone(),
            TokenType::LeftParen => String::from_str("("),
            TokenType::RightParen => String::from_str(")"),
            TokenType::LeftBrace => String::from_str("{"),
            TokenType::RightBrace => String::from_str("}"),
            TokenType::Comma => String::from_str(","),
            TokenType::Dot => String::from_str("."),
            TokenType::Minus => String::from_str("-"),
            TokenType::Plus => String::from_str("+"),
            TokenType::Semicolon => String::from_str(";"),
            TokenType::Slash => String::from_str("/"),
            TokenType::Star => String::from_str("*"),
            TokenType::Bang => String::from_str("!"),
            TokenType::BangEqual => String::from_str("!="),
            TokenType::Equal => String::from_str("="),
            TokenType::EqualEqual => String::from_str("=="),
            TokenType::Greater => String::from_str(">"),
            TokenType::GreaterEqual => String::from_str(">="),
            TokenType::Less => String::from_str("<"),
            TokenType::LessEqual => String::from_str("<="),
            TokenType::And => String::from_str("and"),
            TokenType::Class => String::from_str("class"),
            TokenType::Else => String::from_str("else"),
            TokenType::False => String::from_str("false"),
            TokenType::Fun => String::from_str("fun"),
            TokenType::For => String::from_str("for"),
            TokenType::If => String::from_str("if"),
            TokenType::Nil => String::from_str("nil"),
            TokenType::Or => String::from_str("or"),
            TokenType::Print => String::from_str("print"),
            TokenType::Return => String::from_str("return"),
            TokenType::Super => String::from_str("super"),
            TokenType::This => String::from_str("this"),
            TokenType::True => String::from_str("true"),
            TokenType::Var => String::from_str("var"),
            TokenType::While => String::from_str("while"),
            TokenType::EOF => String::from_str("EOF"),
        }
    }
}

fn is_digit_char(c: char) -> (r: bool)
    ensures
        r == is_digit(c),
{
    '0' <= c && c <= '9'
}

fn continues(run: Run, c: char) -> (r: bool)
    ensures
        r == in_run(run, c),
{
    match run {
        Run::StringBody => c != '"',
        Run::Digits => is_digit_char(c),
        Run::Word => is_alpha_char(c) || is_digit_char(c),
    }
}

fn is_alpha_char(c: char) -> (r: bool)
    ensures
        r == is_alpha(c),
{
    ('a' <= c && c <= 'z') || ('A' <= c && c <= 'Z') || c == '_'
}

fn punctuation_of(c: char) -> (r: Option<TokenType>)
    ensures
        r == punctuation(c),
{
    if c == '(' {
        Some(TokenType::LeftParen)
    } else if c == ')' {
        Some(TokenType::RightParen)
    } else if c == '{' {
        Some(TokenType::LeftBrace)
    } else if c == '}' {
        Some(TokenType::RightBrace)
    } else if c == ',' {
        Some(TokenType::Comma)
    } else if c == '.' {
        Some(TokenType::Dot)
    } else if c == '-' {
        Some(TokenType::Minus)
    } else if c == '+' {
        Some(TokenType::Plus)
    } else if c == ';' {
        Some(TokenType::Semicolon)
    } else if c == '*' {
        Some(TokenType::Star)
    } else {
        None
    }
}

fn operator_of(c: char) -> (r: Option<(TokenType, TokenType)>)
    ensures
        r == operator(c),
{
    if c == '!' {
        Some((TokenType::Bang, TokenType::BangEqual))
    } else if c == '=' {
        Some((TokenType::Equal, TokenType::EqualEqual))
    } else if c == '>' {
        Some((TokenType::Greater, TokenType::GreaterEqual))
    } else if c == '<' {
        Some((TokenType::Less, TokenType::LessEqual))
    } else {
        None
    }
}

/// Whether the characters of `w` spell `k`.
fn spells(w: &Vec<char>, k: &str) -> (r: bool)
    ensures
        r == (w@ == k@),
{
    let n = k.unicode_len();
    if w.len() != n {
        return false;
    }
    let mut i: usize = 0;
    while i < n
        invariant
            n == k@.len(),
            w@.len() == n,
            i <= n,
            forall|j: int| 0 <= j < i ==> w@[j] == k@[j],
        decreases n - i,
    {
        if w[i] != k.get_char(i) {
            return false;
        }
        i += 1;
    }
    assert(w@ =~= k@);
    true
}

fn keyword_of(w: &Vec<char>) -> (r: Option<TokenType>)
    ensures
        r == keyword(w@),
{
    if spells(w, "and") {
        Some(TokenType::And)
    } else if spells(w, "class") {
        Some(TokenType::Class)
    } else if spells(w, "else") {
        Some(TokenType::Else)
    } else if spells(w, "false") {
        Some(TokenType::False)
    } else if spells(w, "for") {
        Some(TokenType::For)
    } else if spells(w, "fun") {
        Some(TokenType::Fun)
    } else if spells(w, "if") {
        Some(TokenType::If)
    } else if spells(w, "nil") {
        Some(TokenType::Nil)
    } else if spells(w, "or") {
        Some(TokenType::Or)
    } else if spells(w, "print") {
        Some(TokenType::Print)
    } else if spells(w, "return") {
        Some(TokenType::Return)
    } else if spells(w, "super") {
        Some(TokenType::Super)
    } else if spells(w, "this") {
        Some(TokenType::This)
    } else if spells(w, "true") {
        Some(TokenType::True)
    } else if spells(w, "var") {
        Some(TokenType::Var)
    } else if spells(w, "while") {
        Some(TokenType::While)
    } else {
        None
    }
}

/// The characters of `v` as a `String`.
fn string_of(v: &Vec<char>) -> (r: String)
    ensures
        r@ == v@,
{
    let mut r = String::new();
    let mut i: usize = 0;
    while i < v.len()
        invariant
            i <= v@.len(),
            r@ == v@.take(i as int),
        decreases v@.len() - i,
    {
        r.push(v[i]);
        assert(v@.take(i + 1) == v@.take(i as int).push(v@[i as int]));
        i += 1;
    }
    assert(v@.take(v@.len() as int) == v@);
    r
}

/// The scanner's state: the text not yet scanned, the line it starts on, and
/// whether the end-of-stream token has been handed out.
pub struct Source {
    text: VecDeque<char>,
    line: usize,
    eof_sent: bool,
}

impl Source {
    pub closed spec fn text_left(&self) -> Seq<char> {
        self.text@
    }

    pub closed spec fn current_line(&self) -> nat {
        self.line as nat
    }

    /// Whether the end-of-stream token has been handed out.
    pub closed spec fn finished(&self) -> bool {
        self.eof_sent
    }

    /// The line counter has room for every newline left, and nothing is left
    /// once the end-of-stream token is out.
    pub closed spec fn wf(&self) -> bool {
        &&& self.line + self.text@.len() <= usize::MAX
        &&& self.eof_sent ==> self.text@.len() == 0
    }

    pub fn new(source: String) -> (r: Source)
        ensures
            r.wf(),
            r.text_left() == source@,
            r.current_line() == 0,
            !r.finished(),
    {
        let mut text: VecDeque<char> = VecDeque::new();
        for c in it: source.as_str().chars()
            invariant
                text@ == it.seq().take(it.index() as int),
        {
            text.push_back(c);
        }
        assert(text@ =~= source@);
        assert(text@.len() == text.len());
        Source { text, line: 0, eof_sent: false }
    }

    /// Drops blanks and comments from the front of the text, counting lines.
    fn skip_blanks(&mut self)
        requires
            old(self).wf(),
            !old(self).finished(),
        ensures
            final(self).wf(),
            !final(self).finished(),
            (final(self).text@, final(self).line as nat) == skip_blank(
                old(self).text@,
                old(self).line as nat,
                false,
            ),
    {
        let ghost start = (self.text@, self.line as nat);
        let mut in_comment = false;
        loop
            invariant
                self.wf(),
                !self.finished(),
                skip_blank(self.text@, self.line as nat, in_comment) == skip_blank(
                    start.0,
                    start.1,
                    false,
                ),
            ensures
                self.wf(),
                !self.finished(),
                (self.text@, self.line as nat) == skip_blank(start.0, start.1, false),
            decreases self.text@.len(),
        {
            if self.text.len() == 0 {
                assert(skip_blank(self.text@, self.line as nat, in_comment) == (self.text@, self.line as nat));
                break;
            }
            let c = self.text[0];
            if c == '\n' {
                self.text.pop_front();
                self.line += 1;
                in_comment = false;
            } else if in_comment || c == ' ' || c == '\r' || c == '\t' {
                self.text.pop_front();
            } else if c == '/' && self.text.len() > 1 && self.text[1] == '/' {
                let ghost before = self.text@;
                self.text.pop_front();
                self.text.pop_front();
                assert(self.text@ =~= before.subrange(2, before.len() as int));
                in_comment = true;
            } else {
                assert(skip_blank(self.text@, self.line as nat, in_comment) == (self.text@, self.line as nat));
                break;
            }
        }
    }

    /// Takes a string literal whose opening quote is already consumed, up to
    /// and including its closing quote.
    fn string_literal(&mut self) -> (r: Result<Token, Error>)
        requires
            old(self).wf(),
            !old(self).finished(),
        ensures
            final(self).wf(),
            !final(self).finished(),
            ({
                let s = old(self).text@;
                let line = old(self).line as nat;
                let n = prefix_len(s, Run::StringBody);
                if n == s.len() {
                    &&& r matches Err(e) && e@ == Fault::UnterminatedString {
                        line: line + count(s, '\n'),
                    }
                    &&& final(self).text@.len() == 0
                    &&& final(self).line == line + count(s, '\n')
                } else {
                    let body = s.take(n as int);
                    &&& r matches Ok(t) && t@ == (TokenView {
                        kind: Kind::Str(body),
                        line: line + count(body, '\n'),
                    })
                    &&& final(self).text@ == s.skip(n + 1int)
                    &&& final(self).line == line + count(body, '\n')
                }
            }),
    {
        let ghost s = self.text@;
        let ghost line0 = self.line as nat;
        let mut literal = String::new();
        loop
            invariant
                self.wf(),
                !self.finished(),
                literal@.len() <= s.len(),
                literal@ == s.take(literal@.len() as int),
                self.text@ == s.skip(literal@.len() as int),
                forall|j: int| 0 <= j < literal@.len() ==> #[trigger] in_run(Run::StringBody, s[j]),
                self.line == line0 + count(literal@, '\n'),
                s == old(self).text@,
                line0 == old(self).line,
            decreases self.text@.len(),
        {
            let ghost k = literal@.len();
            match self.text.pop_front() {
                None => {
                    proof {
                        lemma_prefix_len_exact(s, Run::StringBody, k);
                        assert(literal@ =~= s);
                    }
                    return Err(Error::UnterminatedString { line: self.line });
                },
                Some(c) => {
                    if c == '"' {
                        proof {
                            lemma_prefix_len_exact(s, Run::StringBody, k);
                            assert(s.skip(k + 1int) =~= self.text@);
                        }
                        return Ok(Token::new(TokenType::Str(literal), self.line));
                    }
                    proof {
                        lemma_count_push(literal@, c, '\n');
                    }
                    if c == '\n' {
                        self.line += 1;
                    }
                    literal.push(c);
                    assert(literal@ =~= s.take(k + 1int));
                    assert(self.text@ =~= s.skip(k + 1int));
                },
            }
        }
    }

    /// Takes the longest run of the given sort from the front of the text.
    fn take_run(&mut self, run: Run) -> (r: Vec<char>)
        requires
            old(self).wf(),
            !old(self).finished(),
        ensures
            final(self).wf(),
            !final(self).finished(),
            final(self).line == old(self).line,
            ({
                let s = old(self).text@;
                let n = prefix_len(s, run);
                &&& r@ == s.take(n as int)
                &&& final(self).text@ == s.skip(n as int)
            }),
    {
        let ghost s = self.text@;
        let mut taken: Vec<char> = Vec::new();
        loop
            invariant
                self.wf(),
                !self.finished(),
                self.line == old(self).line,
                taken@.len() <= s.len(),
                taken@ == s.take(taken@.len() as int),
                self.text@ == s.skip(taken@.len() as int),
                forall|j: int| 0 <= j < taken@.len() ==> #[trigger] in_run(run, s[j]),
            ensures
                self.wf(),
                !self.finished(),
                self.line == old(self).line,
                taken@ == s.take(prefix_len(s, run) as int),
                self.text@ == s.skip(prefix_len(s, run) as int),
            decreases self.text@.len(),
        {
            let ghost k = taken@.len();
            if self.text.len() == 0 || !continues(run, self.text[0]) {
                proof {
                    lemma_prefix_len_exact(s, run, k);
                }
                break;
            }
            let c = self.text[0];
            self.text.pop_front();
            taken.push(c);
            assert(taken@ =~= s.take(k + 1int));
            assert(self.text@ =~= s.skip(k + 1int));
        }
        taken
    }

    /// Takes the number literal at the front of the text.
    fn take_number(&mut self) -> (r: Vec<char>)
        requires
            old(self).wf(),
            !old(self).finished(),
        ensures
            final(self).wf(),
            !final(self).finished(),
            final(self).line == old(self).line,
            r@ == old(self).text@.take(number_len(old(self).text@) as int),
            final(self).text@ == old(self).text@.skip(number_len(old(self).text@) as int),
    {
        let ghost s = self.text@;
        let mut literal = self.take_run(Run::Digits);
        let ghost whole = prefix_len(s, Run::Digits);
        proof {
            lemma_prefix_len_bound(s, Run::Digits);
        }
        if self.text.len() > 0 && self.text[0] == '.' {
            self.text.pop_front();
            literal.push('.');
            let ghost after = self.text@;
            assert(after =~= s.skip(whole + 1int));
            let mut fraction = self.take_run(Run::Digits);
            proof {
                lemma_prefix_len_bound(after, Run::Digits);
            }
            literal.append(&mut fraction);
            assert(literal@ =~= s.take(number_len(s) as int));
            assert(self.text@ =~= s.skip(number_len(s) as int));
        }
        literal
    }

    /// Scans the next token. After the end-of-stream token it gives `None`
    /// and leaves the scanner as it is.
    pub fn next(&mut self) -> (r: Option<Result<Token, Error>>)
        requires
            old(self).wf(),
        ensures
            final(self).wf(),
            old(self).finished() ==> r is None && *final(self) == *old(self),
            !old(self).finished() ==> ({
                let step = next_token(old(self).text_left(), old(self).current_line());
                &&& final(self).text_left() == step.rest
                &&& final(self).current_line() == step.line
                &&& match step.outcome {
                    Ok(t) => {
                        &&& r matches Some(Ok(tok)) && tok@ == t
                        &&& final(self).finished() == (t.kind == Kind::Fixed(TokenType::EOF))
                    },
                    Err(f) => r matches Some(Err(e)) && e@ == f && !final(self).finished(),
                }
            }),
            // each pull takes a prefix of the text and counts the newlines in it
            old(self).text_left() == consumed(old(self).text_left(), final(self).text_left())
                + final(self).text_left(),
            final(self).current_line() == old(self).current_line() + count(
                consumed(old(self).text_left(), final(self).text_left()),
                '\n',
            ),
            final(self).text_left().len() == old(self).text_left().len() ==> (r is None || (
            r matches Some(Ok(t)) && t.type_ is EOF)),
    {
        proof {
            lemma_next_token_consumes(self.text@, self.line as nat);
        }
        if self.eof_sent {
            assert(consumed(self.text@, self.text@) =~= Seq::<char>::empty());
            return None;
        }
        self.skip_blanks();
        if self.text.len() == 0 {
            self.eof_sent = true;
            return Some(Ok(Token::new(TokenType::EOF, self.line)));
        }
        let c = self.text[0];
        if let Some(t) = punctuation_of(c) {
            self.text.pop_front();
            return Some(Ok(Token::new(t, self.line)));
        }
        if let Some((single, double)) = operator_of(c) {
            self.text.pop_front();
            if self.text.len() > 0 && self.text[0] == '=' {
                self.text.pop_front();
                return Some(Ok(Token::new(double, self.line)));
            }
            return Some(Ok(Token::new(single, self.line)));
        }
        if c == '/' {
            self.text.pop_front();
            return Some(Ok(Token::new(TokenType::Slash, self.line)));
        }
        if c == '"' {
            self.text.pop_front();
            return Some(self.string_literal());
        }
        if is_digit_char(c) {
            let literal = self.take_number();
            return Some(Ok(Token::new(TokenType::Number(string_of(&literal)), self.line)));
        }
        if is_alpha_char(c) {
            let word = self.take_run(Run::Word);
            let t = match keyword_of(&word) {
                Some(k) => k,
                None => TokenType::Identifier(string_of(&word)),
            };
            return Some(Ok(Token::new(t, self.line)));
        }
        self.text.pop_front();
        Some(Err(Error::BadChar { c, line: self.line }))
    }
}

/// Scans the whole of `source`, from line 0: every token in order, ending
/// with one end-of-stream token, or the first lexical error.
pub fn scan_tokens(source: String) -> (r: Result<Vec<Token>, Error>)
    ensures
        scan_view(r) == scan(source@, 0),
{
    let ghost text = source@;
    let mut src = Source::new(source);
    let mut tokens: Vec<Token> = Vec::new();
    loop
        invariant
            src.wf(),
            !src.finished(),
            scan(text, 0) == prepend(token_views(tokens@), scan(src.text_left(), src.current_line())),
            text == source@,
        decreases src.text_left().len(),
    {
        let ghost before = src;
        proof {
            lemma_next_token_shortens(before.text_left(), before.current_line());
        }
        match src.next() {
            None => {
                return Ok(tokens);
            },
            Some(Err(e)) => {
                assert(scan(before.text_left(), before.current_line()) == Err::<Seq<TokenView>, Fault>(e@));
                return Err(e);
            },
            Some(Ok(t)) => {
                let ghost tv = t@;
                let ghost acc = token_views(tokens@);
                let end = matches!(t.type_, TokenType::EOF);
                tokens.push(t);
                proof {
                    assert(token_views(tokens@) =~= acc + seq![tv]);
                }
                if end {
                    assert(scan(before.text_left(), before.current_line()) == Ok::<
                        Seq<TokenView>,
                        Fault,
                    >(seq![tv]));
                    return Ok(tokens);
                }
                proof {
                    assert(scan(before.text_left(), before.current_line()) == prepend(
                        seq![tv],
                        scan(src.text_left(), src.current_line()),
                    ));
                    lemma_prepend_twice(
                        acc,
                        seq![tv],
                        scan(src.text_left(), src.current_line()),
                    );
                }
            },
        }
    }
}

} // verus!
