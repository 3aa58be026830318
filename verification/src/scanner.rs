//! The scanner: source text to tokens, one at a time.
use vstd::prelude::*;
use vstd::string::StringExecFns;
use crate::value::is_digit;
use crate::value::is_number_literal;
use crate::value::number_with_dot;

verus! {

/// The kinds of token.
#[derive(Debug, Eq, PartialEq, Structural, Copy, Clone)]
pub enum TokenType {
    // Single-character tokens.
    LeftParen,
    RightParen,
    LeftBrace,
    RightBrace,
    Comma,
    Dot,
    Minus,
    Plus,
    Semicolon,
    Slash,
    Star,
    // One or two character tokens.
    Bang,
    BangEqual,
    Equal,
    EqualEqual,
    Greater,
    GreaterEqual,
    Less,
    LessEqual,
    // Literals.
    Identifier,
    String,
    Number,
    // Keywords.
    And,
    Class,
    Else,
    False,
    For,
    Fun,
    If,
    Nil,
    Or,
    Print,
    Return,
    Super,
    This,
    True,
    Var,
    While,
    Error,
    Eof,
}

/// A lexical unit: a piece of the source with its kind and the line it
/// began on, or a diagnostic in its place.
#[derive(Debug)]
pub enum Token {
    Scanned { token_type: TokenType, token: String, line: usize },
    Error { message: String, line: usize },
}

/// What a token says: its kind, its text (for a diagnostic, the message)
/// and the 1-based line it began on.
pub struct Lexeme {
    pub kind: TokenType,
    pub text: Seq<char>,
    pub line: nat,
}

impl View for Token {
    type V = Lexeme;

    open spec fn view(&self) -> Lexeme {
        match *self {
            Token::Scanned { token_type, token, line } => Lexeme {
                kind: token_type,
                text: token@,
                line: line as nat,
            },
            Token::Error { message, line } => Lexeme {
                kind: TokenType::Error,
                text: message@,
                line: line as nat,
            },
        }
    }
}

impl Clone for Token {
    fn clone(&self) -> (copy: Token)
        ensures
            copy == *self,
    {
        match self {
            Token::Scanned { token_type, token, line } => Token::Scanned {
                token_type: *token_type,
                token: token.clone(),
                line: *line,
            },
            Token::Error { message, line } => Token::Error {
                message: message.clone(),
                line: *line,
            },
        }
    }
}

impl Token {
    /// A token is a diagnostic exactly when its kind is `Error`.
    pub open spec fn wf(&self) -> bool {
        match *self {
            Token::Scanned { token_type, .. } => token_type != TokenType::Error,
            Token::Error { .. } => true,
        }
    }

    /// The kind of the token; `Error` for a diagnostic.
    pub fn token_type(&self) -> (kind: TokenType)
        ensures
            kind == self@.kind,
    {
        match self {
            Token::Scanned { token_type, .. } => *token_type,
            Token::Error { .. } => TokenType::Error,
        }
    }

    /// The text of the token; the message of a diagnostic.
    pub fn text(&self) -> (text: &str)
        ensures
            text@ == self@.text,
    {
        match self {
            Token::Scanned { token, .. } => token.as_str(),
            Token::Error { message, .. } => message.as_str(),
        }
    }

    /// The line the token began on.
    pub fn line(&self) -> (line: usize)
        ensures
            line == self@.line,
    {
        match self {
            Token::Scanned { line, .. } => *line,
            Token::Error { line, .. } => *line,
        }
    }
}

/// A position in the source: the number of characters before it and the
/// 1-based number of its line.
pub struct Place {
    pub at: nat,
    pub line: nat,
}

impl Place {
    /// The start of the source.
    pub open spec fn origin() -> Place {
        Place { at: 0, line: 1 }
    }
}

/// A scanned token and the position after it.
pub struct Scan {
    pub token: Lexeme,
    pub next: Place,
}

/// The classes of character that a run in the source is made of.
pub enum Run {
    /// ASCII digits.
    Digits,
    /// Letters and ASCII digits.
    Word,
    /// Anything but a line feed.
    Line,
    /// Anything but a double quote.
    Quoted,
}

/// Whether `c` is a letter: whether it has the Unicode property
/// `Alphabetic`, as `char::is_alphabetic` of the standard library tells.
pub uninterp spec fn is_alphabetic(c: char) -> bool;

/// A space, a carriage return or a tab.
pub open spec fn is_blank(c: char) -> bool {
    c == ' ' || c == '\r' || c == '\t'
}

impl Run {
    /// Whether `c` belongs to the class.
    pub open spec fn has(self, c: char) -> bool {
        match self {
            Run::Digits => is_digit(c),
            Run::Word => is_digit(c) || is_alphabetic(c),
            Run::Line => c != '\n',
            Run::Quoted => c != '"',
        }
    }
}

/// The end of the longest run of characters of class `run` that starts at
/// `from`.
pub open spec fn span(s: Seq<char>, from: int, run: Run) -> int
    decreases s.len() - from,
{
    if 0 <= from < s.len() && run.has(s[from]) {
        span(s, from + 1, run)
    } else {
        from
    }
}

/// The number of line feeds in `s` from `from` up to `to`.
pub open spec fn line_feeds(s: Seq<char>, from: int, to: int) -> nat
    decreases to - from,
{
    if 0 <= from < to <= s.len() {
        line_feeds(s, from, to - 1) + if s[to - 1] == '\n' {
            1nat
        } else {
            0nat
        }
    } else {
        0
    }
}

/// A run ends at or after its start, within the source, and at a character
/// that is not of its class.
pub proof fn lemma_span(s: Seq<char>, from: int, run: Run)
    requires
        0 <= from <= s.len(),
    ensures
        from <= span(s, from, run) <= s.len(),
        span(s, from, run) < s.len() ==> !run.has(s[span(s, from, run)]),
        forall|i: int| from <= i < span(s, from, run) ==> run.has(#[trigger] s[i]),
    decreases s.len() - from,
{
    if from < s.len() && run.has(s[from]) {
        lemma_span(s, from + 1, run);
    }
}

/// The position of the first character at or after `from` that belongs to
/// a token: blanks, line feeds and comments (from `//` to the end of the
/// line) are passed over, and each line feed counts one line.
pub open spec fn skip_blank(s: Seq<char>, from: Place) -> Place
    decreases s.len() - from.at,
{
    let at = from.at as int;
    if at >= s.len() {
        from
    } else if is_blank(s[at]) {
        skip_blank(s, Place { at: from.at + 1, line: from.line })
    } else if s[at] == '\n' {
        skip_blank(s, Place { at: from.at + 1, line: from.line + 1 })
    } else if s[at] == '/' && at + 1 < s.len() && s[at + 1] == '/' {
        proof {
            lemma_span(s, at + 2, Run::Line);
        }
        skip_blank(s, Place { at: span(s, at + 2, Run::Line) as nat, line: from.line })
    } else {
        from
    }
}

/// The kind of the word `text`: that of the keyword it spells, or
/// `Identifier`.
pub open spec fn keyword(text: Seq<char>) -> TokenType {
    if text == "and"@ {
        TokenType::And
    } else if text == "class"@ {
        TokenType::Class
    } else if text == "else"@ {
        TokenType::Else
    } else if text == "false"@ {
        TokenType::False
    } else if text == "for"@ {
        TokenType::For
    } else if text == "fun"@ {
        TokenType::Fun
    } else if text == "if"@ {
        TokenType::If
    } else if text == "nil"@ {
        TokenType::Nil
    } else if text == "or"@ {
        TokenType::Or
    } else if text == "print"@ {
        TokenType::Print
    } else if text == "return"@ {
        TokenType::Return
    } else if text == "super"@ {
        TokenType::Super
    } else if text == "this"@ {
        TokenType::This
    } else if text == "true"@ {
        TokenType::True
    } else if text == "var"@ {
        TokenType::Var
    } else if text == "while"@ {
        TokenType::While
    } else {
        TokenType::Identifier
    }
}

/// The end of the number that starts with the digit at `start`: the run of
/// digits and, where a dot and a digit follow it, the dot and the run of
/// digits after it.
pub open spec fn number_end(s: Seq<char>, start: int) -> int {
    let whole = span(s, start + 1, Run::Digits);
    if whole + 1 < s.len() && s[whole] == '.' && is_digit(s[whole + 1]) {
        span(s, whole + 2, Run::Digits)
    } else {
        whole
    }
}

/// The kind and length of the operator or punctuation mark at `at`, if
/// there is one.
pub open spec fn mark(s: Seq<char>, at: int) -> Option<(TokenType, int)> {
    let followed = at + 1 < s.len() && s[at + 1] == '=';
    let c = s[at];
    if c == '(' {
        Some((TokenType::LeftParen, 1))
    } else if c == ')' {
        Some((TokenType::RightParen, 1))
    } else if c == '{' {
        Some((TokenType::LeftBrace, 1))
    } else if c == '}' {
        Some((TokenType::RightBrace, 1))
    } else if c == ';' {
        Some((TokenType::Semicolon, 1))
    } else if c == ',' {
        Some((TokenType::Comma, 1))
    } else if c == '.' {
        Some((TokenType::Dot, 1))
    } else if c == '-' {
        Some((TokenType::Minus, 1))
    } else if c == '+' {
        Some((TokenType::Plus, 1))
    } else if c == '/' {
        Some((TokenType::Slash, 1))
    } else if c == '*' {
        Some((TokenType::Star, 1))
    } else if c == '!' {
        if followed {
            Some((TokenType::BangEqual, 2))
        } else {
            Some((TokenType::Bang, 1))
        }
    } else if c == '=' {
        if followed {
            Some((TokenType::EqualEqual, 2))
        } else {
            Some((TokenType::Equal, 1))
        }
    } else if c == '<' {
        if followed {
            Some((TokenType::LessEqual, 2))
        } else {
            Some((TokenType::Less, 1))
        }
    } else if c == '>' {
        if followed {
            Some((TokenType::GreaterEqual, 2))
        } else {
            Some((TokenType::Greater, 1))
        }
    } else {
        None
    }
}

/// The token of kind `kind` that is the text from `start` up to `end`, on
/// one line.
pub open spec fn piece(s: Seq<char>, start: Place, end: int, kind: TokenType) -> Scan {
    Scan {
        token: Lexeme { kind, text: s.subrange(start.at as int, end), line: start.line },
        next: Place { at: end as nat, line: start.line },
    }
}

/// The diagnostic `message` for the text from `start` up to `end`, on one
/// line.
pub open spec fn failure(start: Place, end: int, message: Seq<char>) -> Scan {
    Scan {
        token: Lexeme { kind: TokenType::Error, text: message, line: start.line },
        next: Place { at: end as nat, line: start.line },
    }
}

/// The same scan, with the position after it `feeds` lines further down.
pub open spec fn over_lines(scan: Scan, feeds: nat) -> Scan {
    Scan { next: Place { line: scan.next.line + feeds, ..scan.next }, ..scan }
}

/// The token that starts at `start`, where a token starts.
///
/// At the end of the source it is `Eof`. A digit starts a number. A double
/// quote starts a string, which runs to the next double quote, over line
/// feeds too; without one it is a diagnostic. The operators and
/// punctuation marks are one character, or two where `=` follows one of
/// `! = < >`. A letter starts a word, which runs over letters and digits
/// and is a keyword or an identifier. Any other character is a diagnostic.
pub open spec fn token_at(s: Seq<char>, start: Place) -> Scan {
    let at = start.at as int;
    if at >= s.len() {
        piece(s, start, at, TokenType::Eof)
    } else if is_digit(s[at]) {
        piece(s, start, number_end(s, at), TokenType::Number)
    } else if s[at] == '"' {
        let end = span(s, at + 1, Run::Quoted);
        let feeds = line_feeds(s, at + 1, end);
        if end >= s.len() {
            over_lines(failure(start, end, "Unterminated string."@), feeds)
        } else {
            over_lines(piece(s, start, end + 1, TokenType::String), feeds)
        }
    } else {
        match mark(s, at) {
            Some((kind, length)) => piece(s, start, at + length, kind),
            None => if is_alphabetic(s[at]) {
                let end = span(s, at + 1, Run::Word);
                piece(s, start, end, keyword(s.subrange(at, end)))
            } else {
                failure(start, at + 1, "Unexpected character"@)
            },
        }
    }
}

/// The source as it is read: all of it, but for the last character of a
/// source of `usize::MAX` characters. One more than the number of
/// characters that are read, which the number of a line can come to, is
/// then a `usize`.
pub open spec fn readable(source: Seq<char>) -> Seq<char> {
    if source.len() < usize::MAX {
        source
    } else {
        source.take(usize::MAX - 1)
    }
}

/// The next token of source `s` at or after `from`, and the position after
/// it.
pub open spec fn scan(s: Seq<char>, from: Place) -> Scan {
    token_at(s, skip_blank(s, from))
}

/// Blanks and comments are passed over forwards, within the source, and
/// what is reached is not passed over again.
pub proof fn lemma_skip_blank(s: Seq<char>, from: Place)
    ensures
        from.at <= skip_blank(s, from).at,
        from.line <= skip_blank(s, from).line,
        from.at <= s.len() ==> skip_blank(s, from).at <= s.len(),
        skip_blank(s, skip_blank(s, from)) == skip_blank(s, from),
    decreases s.len() - from.at,
{
    let at = from.at as int;
    if at >= s.len() {
    } else if is_blank(s[at]) {
        lemma_skip_blank(s, Place { at: from.at + 1, line: from.line });
    } else if s[at] == '\n' {
        lemma_skip_blank(s, Place { at: from.at + 1, line: from.line + 1 });
    } else if s[at] == '/' && at + 1 < s.len() && s[at + 1] == '/' {
        lemma_span(s, at + 2, Run::Line);
        lemma_skip_blank(s, Place { at: span(s, at + 2, Run::Line) as nat, line: from.line });
    }
}

/// Scanning moves forwards: every token but `Eof` takes at least one
/// character, and `Eof` is scanned only where nothing but blanks and
/// comments is left, where it is scanned again and again.
pub proof fn lemma_scan_advances(s: Seq<char>, from: Place)
    ensures
        from.line <= scan(s, from).next.line,
        scan(s, from).token.kind != TokenType::Eof ==> from.at < scan(s, from).next.at <= s.len(),
        scan(s, from).token.kind == TokenType::Eof ==> {
            &&& from.at <= scan(s, from).next.at
            &&& s.len() <= scan(s, from).next.at
            &&& scan(s, scan(s, from).next) == scan(s, from)
        },
        from.at >= s.len() ==> scan(s, from).token.kind == TokenType::Eof && scan(s, from).next
            == from,
{
    lemma_skip_blank(s, from);
    let start = skip_blank(s, from);
    let at = start.at as int;
    if at < s.len() {
        lemma_span(s, at + 1, Run::Word);
        lemma_span(s, at + 1, Run::Digits);
        lemma_span(s, at + 1, Run::Quoted);
        let whole = span(s, at + 1, Run::Digits);
        if whole + 1 < s.len() {
            lemma_span(s, whole + 2, Run::Digits);
        }
        lemma_keyword_kinds(s.subrange(at, span(s, at + 1, Run::Word)));
    }
}

/// The text of a number token is a number literal.
pub proof fn lemma_scan_number(s: Seq<char>, from: Place)
    ensures
        scan(s, from).token.kind == TokenType::Number ==> is_number_literal(
            scan(s, from).token.text,
        ),
{
    lemma_skip_blank(s, from);
    let start = skip_blank(s, from);
    let at = start.at as int;
    if scan(s, from).token.kind == TokenType::Number {
        lemma_keyword_kinds(s.subrange(at, span(s, at + 1, Run::Word)));
        lemma_number_text(s, at);
    }
}

/// The text from a digit at `at` to the end of the number it starts is a
/// number literal.
proof fn lemma_number_text(s: Seq<char>, at: int)
    requires
        0 <= at < s.len(),
        is_digit(s[at]),
    ensures
        at < number_end(s, at) <= s.len(),
        is_number_literal(s.subrange(at, number_end(s, at))),
{
    lemma_span(s, at + 1, Run::Digits);
    let whole = span(s, at + 1, Run::Digits);
    let end = number_end(s, at);
    let text = s.subrange(at, end);
    if whole + 1 < s.len() && s[whole] == '.' && is_digit(s[whole + 1]) {
        lemma_span(s, whole + 2, Run::Digits);
        let dot = whole - at;
        assert(number_with_dot(text, dot));
    } else {
        let dot = text.len() as int;
        assert(number_with_dot(text, dot));
    }
}

/// Taken on trust: `char::is_alphabetic` of the standard library answers
/// the same for the same character. The contract gives the answer its
/// name, [`is_alphabetic`], and says nothing of what it is.
#[verifier::external_body]
fn alphabetic(c: char) -> (r: bool)
    ensures
        r == is_alphabetic(c),
{
    c.is_alphabetic()
}

/// Whether `c` is one of the ten ASCII digits.
fn digit(c: char) -> (r: bool)
    ensures
        r == is_digit(c),
{
    '0' <= c && c <= '9'
}

/// A scanner over one source text. It hands out the tokens of the text one
/// by one, and `Eof` from its end on.
pub struct Scanner {
    source_chars: Vec<char>,
    start_index: usize,
    start_line: usize,
    current_index: usize,
    line: usize,
}

impl Scanner {
    /// The positions lie within the source and the line numbers are those
    /// of lines that the source has.
    pub closed spec fn wf(&self) -> bool {
        &&& self.start_index <= self.current_index <= self.source_chars.len()
        &&& self.source_chars.len() < usize::MAX
        &&& 1 <= self.start_line <= self.line <= self.current_index + 1
    }

    /// The source text.
    pub closed spec fn source(&self) -> Seq<char> {
        self.source_chars@
    }

    /// The position that the scanner has reached.
    pub closed spec fn place(&self) -> Place {
        Place { at: self.current_index as nat, line: self.line as nat }
    }

    /// The position at which the token being scanned starts.
    closed spec fn start_place(&self) -> Place {
        Place { at: self.start_index as nat, line: self.start_line as nat }
    }

    /// The scanner is within its source, on a line of it.
    pub proof fn lemma_within(&self)
        requires
            self.wf(),
        ensures
            self.place().at <= self.source().len(),
            1 <= self.place().line <= self.place().at + 1,
            self.source().len() < usize::MAX,
    {
    }

    /// A scanner at the start of `source`.
    pub fn new(source: String) -> (scanner: Scanner)
        ensures
            scanner.wf(),
            scanner.source() == readable(source@),
            scanner.place() == Place::origin(),
    {
        let mut source_chars: Vec<char> = Vec::new();
        for c in it: source.as_str().chars()
            invariant
                source_chars@ == it.seq().take(it.index() as int),
                it.seq() == source@,
        {
            source_chars.push(c);
        }
        if source_chars.len() == usize::MAX {
            source_chars.pop();
        }
        Scanner { source_chars, start_index: 0, start_line: 1, current_index: 0, line: 1 }
    }

    fn start(&self) -> (c: char)
        requires
            self.start_index < self.source_chars.len(),
        ensures
            c == self.source_chars[self.start_index as int],
    {
        self.source_chars[self.start_index]
    }

    fn current(&self) -> (c: char)
        requires
            self.current_index < self.source_chars.len(),
        ensures
            c == self.source_chars[self.current_index as int],
    {
        self.source_chars[self.current_index]
    }

    fn is_at_end(&self) -> (r: bool)
        ensures
            r == (self.current_index >= self.source_chars.len()),
    {
        self.current_index >= self.source_chars.len()
    }

    /// Consumes one character and returns it.
    fn advance(&mut self) -> (c: char)
        requires
            old(self).wf(),
            old(self).current_index < old(self).source_chars.len(),
        ensures
            final(self).wf(),
            c == old(self).source_chars[old(self).current_index as int],
            *final(self) == (Scanner {
                current_index: (old(self).current_index + 1) as usize,
                ..*old(self)
            }),
    {
        self.current_index += 1;
        self.source_chars[self.current_index - 1]
    }

    /// Consumes the next character if it is `expected`.
    fn matches(&mut self, expected: char) -> (r: bool)
        requires
            old(self).wf(),
        ensures
            final(self).wf(),
            r == (old(self).current_index < old(self).source_chars.len()
                && old(self).source_chars[old(self).current_index as int] == expected),
            *final(self) == (Scanner {
                current_index: if r {
                    (old(self).current_index + 1) as usize
                } else {
                    old(self).current_index
                },
                ..*old(self)
            }),
    {
        if self.is_at_end() {
            return false;
        }
        if self.current() != expected {
            return false;
        }
        self.current_index += 1;
        true
    }

    /// The next character, if there is one.
    fn peek(&self) -> (c: Option<char>)
        ensures
            c == if self.current_index < self.source_chars.len() {
                Some(self.source_chars[self.current_index as int])
            } else {
                None
            },
    {
        if self.is_at_end() {
            None
        } else {
            Some(self.current())
        }
    }

    /// The character after the next, if there is one.
    fn peek_next(&self) -> (c: Option<char>)
        requires
            self.wf(),
        ensures
            c == if self.current_index + 1 < self.source_chars.len() {
                Some(self.source_chars[self.current_index + 1])
            } else {
                None
            },
    {
        if self.is_at_end() {
            None
        } else if self.current_index + 1 == self.source_chars.len() {
            None
        } else {
            Some(self.source_chars[self.current_index + 1])
        }
    }

    /// Consumes the characters of class `run` that come next.
    fn skip_run(&mut self, run: &Run)
        requires
            old(self).wf(),
        ensures
            final(self).wf(),
            final(self).current_index == span(
                old(self).source_chars@,
                old(self).current_index as int,
                *run,
            ),
            *final(self) == (Scanner { current_index: final(self).current_index, ..*old(self) }),
    {
        loop
            invariant
                self.wf(),
                old(self).current_index <= self.current_index,
                *self == (Scanner { current_index: self.current_index, ..*old(self) }),
                span(self.source_chars@, self.current_index as int, *run) == span(
                    old(self).source_chars@,
                    old(self).current_index as int,
                    *run,
                ),
            ensures
                self.wf(),
                self.current_index == span(
                    old(self).source_chars@,
                    old(self).current_index as int,
                    *run,
                ),
                *self == (Scanner { current_index: self.current_index, ..*old(self) }),
            decreases self.source_chars.len() - self.current_index,
        {
            let c = match self.peek() {
                Some(c) => c,
                None => {
                    break ;
                },
            };
            let inside = match run {
                Run::Digits => digit(c),
                Run::Word => digit(c) || alphabetic(c),
                Run::Line => c != '\n',
                Run::Quoted => c != '"',
            };
            if !inside {
                break ;
            }
            self.current_index += 1;
        }
    }

    /// Passes over blanks, line feeds and comments.
    fn skip_whitespace(&mut self)
        requires
            old(self).wf(),
        ensures
            final(self).wf(),
            final(self).place() == skip_blank(old(self).source_chars@, old(self).place()),
            *final(self) == (Scanner {
                current_index: final(self).current_index,
                line: final(self).line,
                ..*old(self)
            }),
    {
        loop
            invariant
                self.wf(),
                *self == (Scanner {
                    current_index: self.current_index,
                    line: self.line,
                    ..*old(self)
                }),
                skip_blank(self.source_chars@, self.place()) == skip_blank(
                    old(self).source_chars@,
                    old(self).place(),
                ),
            ensures
                self.wf(),
                *self == (Scanner {
                    current_index: self.current_index,
                    line: self.line,
                    ..*old(self)
                }),
                self.place() == skip_blank(old(self).source_chars@, old(self).place()),
            decreases self.source_chars.len() - self.current_index,
        {
            match self.peek() {
                Some(' ') | Some('\r') | Some('\t') => {
                    self.advance();
                },
                Some('\n') => {
                    self.advance();
                    self.line += 1;
                },
                Some('/') => {
                    match self.peek_next() {
                        Some('/') => {
                            // A comment goes until the end of the line.
                            self.advance();
                            self.advance();
                            proof {
                                lemma_span(
                                    self.source_chars@,
                                    self.current_index as int,
                                    Run::Line,
                                );
                            }
                            self.skip_run(&Run::Line);
                        },
                        _ => {
                            break ;
                        },
                    }
                },
                _ => {
                    break ;
                },
            }
        }
    }

    /// The text of the token being scanned.
    fn lexeme(&self) -> (text: String)
        requires
            self.wf(),
        ensures
            text@ == self.source_chars@.subrange(
                self.start_index as int,
                self.current_index as int,
            ),
    {
        let mut text = String::new();
        let mut i = self.start_index;
        while i < self.current_index
            invariant
                self.wf(),
                self.start_index <= i <= self.current_index,
                text@ == self.source_chars@.subrange(self.start_index as int, i as int),
            decreases self.current_index - i,
        {
            text.push(self.source_chars[i]);
            i += 1;
        }
        text
    }

    /// The token of kind `token_type` for the text being scanned.
    fn make_token(&self, token_type: TokenType) -> (token: Token)
        requires
            self.wf(),
            token_type != TokenType::Error,
        ensures
            token.wf(),
            token@ == piece(
                self.source_chars@,
                self.start_place(),
                self.current_index as int,
                token_type,
            ).token,
    {
        Token::Scanned { token_type, token: self.lexeme(), line: self.start_line }
    }

    /// The diagnostic `message` for the text being scanned.
    fn error_token(&self, message: &str) -> (token: Token)
        ensures
            token.wf(),
            token@ == failure(self.start_place(), self.current_index as int, message@).token,
    {
        Token::Error { message: String::from_str(message), line: self.start_line }
    }

    /// The text being scanned.
    closed spec fn word(&self) -> Seq<char> {
        self.source_chars@.subrange(self.start_index as int, self.current_index as int)
    }

    /// `token_type` if the text being scanned is `start` characters
    /// followed by `rest`, and `Identifier` if not.
    fn check_keyword(&self, start: usize, rest: &str, token_type: TokenType) -> (kind: TokenType)
        requires
            self.wf(),
        ensures
            kind == if self.word().len() == start + rest@.len() && self.word().skip(start as int)
                == rest@ {
                token_type
            } else {
                TokenType::Identifier
            },
    {
        let length = self.current_index - self.start_index;
        let rest_length = rest.unicode_len();
        if length < start || length - start != rest_length {
            return TokenType::Identifier;
        }
        let mut i: usize = 0;
        while i < rest_length
            invariant
                self.wf(),
                length == self.current_index - self.start_index,
                rest_length == rest@.len(),
                length == start + rest_length,
                i <= rest_length,
                forall|j: int| 0 <= j < i ==> self.word()[start + j] == rest@[j],
            decreases rest_length - i,
        {
            if self.source_chars[self.start_index + start + i] != rest.get_char(i) {
                return TokenType::Identifier;
            }
            i += 1;
        }
        assert(self.word().skip(start as int) =~= rest@);
        token_type
    }

    /// The kind of the word being scanned: a keyword or `Identifier`.
    fn identifier_type(&self) -> (kind: TokenType)
        requires
            self.wf(),
            self.start_index < self.current_index,
        ensures
            kind == keyword(self.word()),
    {
        proof {
            lemma_keywords(self.word());
        }
        let length = self.current_index - self.start_index;
        match self.start() {
            'a' => self.check_keyword(1, "nd", TokenType::And),
            'c' => self.check_keyword(1, "lass", TokenType::Class),
            'e' => self.check_keyword(1, "lse", TokenType::Else),
            'f' => {
                if length > 1 {
                    match self.source_chars[self.start_index + 1] {
                        'a' => self.check_keyword(2, "lse", TokenType::False),
                        'o' => self.check_keyword(2, "r", TokenType::For),
                        'u' => self.check_keyword(2, "n", TokenType::Fun),
                        _ => TokenType::Identifier,
                    }
                } else {
                    TokenType::Identifier
                }
            },
            'i' => self.check_keyword(1, "f", TokenType::If),
            'n' => self.check_keyword(1, "il", TokenType::Nil),
            'o' => self.check_keyword(1, "r", TokenType::Or),
            'p' => self.check_keyword(1, "rint", TokenType::Print),
            'r' => self.check_keyword(1, "eturn", TokenType::Return),
            's' => self.check_keyword(1, "uper", TokenType::Super),
            't' => {
                if length > 1 {
                    match self.source_chars[self.start_index + 1] {
                        'h' => self.check_keyword(2, "is", TokenType::This),
                        'r' => self.check_keyword(2, "ue", TokenType::True),
                        _ => TokenType::Identifier,
                    }
                } else {
                    TokenType::Identifier
                }
            },
            'v' => self.check_keyword(1, "ar", TokenType::Var),
            'w' => self.check_keyword(1, "hile", TokenType::While),
            _ => TokenType::Identifier,
        }
    }

    /// Scans the rest of a word, whose first letter has been consumed.
    fn identifier(&mut self) -> (token: Token)
        requires
            old(self).wf(),
            old(self).current_index == old(self).start_index + 1,
            old(self).start_line == old(self).line,
        ensures
            final(self).wf(),
            final(self).source_chars == old(self).source_chars,
            token.wf(),
            ({
                let s = old(self).source_chars@;
                let at = old(self).start_index as int;
                let end = span(s, at + 1, Run::Word);
                Scan { token: token@, next: final(self).place() } == piece(
                    s,
                    old(self).start_place(),
                    end,
                    keyword(s.subrange(at, end)),
                )
            }),
    {
        proof {
            lemma_span(self.source_chars@, self.current_index as int, Run::Word);
        }
        self.skip_run(&Run::Word);
        let kind = self.identifier_type();
        self.make_token(kind)
    }

    /// Scans the rest of a number, whose first digit has been consumed.
    fn number(&mut self) -> (token: Token)
        requires
            old(self).wf(),
            old(self).current_index == old(self).start_index + 1,
            old(self).start_line == old(self).line,
        ensures
            final(self).wf(),
            final(self).source_chars == old(self).source_chars,
            token.wf(),
            ({
                let s = old(self).source_chars@;
                let at = old(self).start_index as int;
                Scan { token: token@, next: final(self).place() } == piece(
                    s,
                    old(self).start_place(),
                    number_end(s, at),
                    TokenType::Number,
                )
            }),
    {
        self.skip_run(&Run::Digits);
        let fraction = match self.peek() {
            Some('.') => match self.peek_next() {
                Some(c) => digit(c),
                None => false,
            },
            _ => false,
        };
        if fraction {
            // Consume the '.' and the first digit after it.
            self.advance();
            self.advance();
            self.skip_run(&Run::Digits);
        }
        self.make_token(TokenType::Number)
    }

    /// Scans the rest of a string, whose opening quote has been consumed.
    fn string(&mut self) -> (token: Token)
        requires
            old(self).wf(),
            old(self).current_index == old(self).start_index + 1,
            old(self).start_line == old(self).line,
        ensures
            final(self).wf(),
            final(self).source_chars == old(self).source_chars,
            token.wf(),
            ({
                let s = old(self).source_chars@;
                let at = old(self).start_index as int;
                let end = span(s, at + 1, Run::Quoted);
                let feeds = line_feeds(s, at + 1, end);
                Scan { token: token@, next: final(self).place() } == if end >= s.len() {
                    over_lines(
                        failure(old(self).start_place(), end, "Unterminated string."@),
                        feeds,
                    )
                } else {
                    over_lines(piece(s, old(self).start_place(), end + 1, TokenType::String), feeds)
                }
            }),
    {
        let ghost s = self.source_chars@;
        let ghost from = self.current_index as int;
        loop
            invariant
                self.wf(),
                *self == (Scanner {
                    current_index: self.current_index,
                    line: self.line,
                    ..*old(self)
                }),
                s == self.source_chars@,
                from == old(self).current_index,
                from <= self.current_index,
                span(s, self.current_index as int, Run::Quoted) == span(s, from, Run::Quoted),
                self.line == self.start_line + line_feeds(s, from, self.current_index as int),
                self.line <= self.start_line + (self.current_index - from),
            ensures
                self.wf(),
                *self == (Scanner {
                    current_index: self.current_index,
                    line: self.line,
                    ..*old(self)
                }),
                self.current_index == span(s, from, Run::Quoted),
                self.line == self.start_line + line_feeds(s, from, self.current_index as int),
            decreases self.source_chars.len() - self.current_index,
        {
            match self.peek() {
                None => {
                    break ;
                },
                Some('"') => {
                    break ;
                },
                Some(c) => {
                    self.advance();
                    if c == '\n' {
                        self.line += 1;
                    }
                },
            }
        }
        if self.is_at_end() {
            return self.error_token("Unterminated string.");
        }
        // The closing quote

        self.advance();
        self.make_token(TokenType::String)
    }

    /// Scans the next token. At the end of the source the token is `Eof`,
    /// however often it is asked for.
    pub fn scan_token(&mut self) -> (token: Token)
        requires
            old(self).wf(),
        ensures
            final(self).wf(),
            final(self).source() == old(self).source(),
            token.wf(),
            (Scan { token: token@, next: final(self).place() }) == scan(
                old(self).source(),
                old(self).place(),
            ),
    {
        self.skip_whitespace();
        self.start_index = self.current_index;
        self.start_line = self.line;
        if self.is_at_end() {
            return self.make_token(TokenType::Eof);
        }
        let c = self.advance();
        if digit(c) {
            return self.number();
        }
        match c {
            '(' => self.make_token(TokenType::LeftParen),
            ')' => self.make_token(TokenType::RightParen),
            '{' => self.make_token(TokenType::LeftBrace),
            '}' => self.make_token(TokenType::RightBrace),
            ';' => self.make_token(TokenType::Semicolon),
            ',' => self.make_token(TokenType::Comma),
            '.' => self.make_token(TokenType::Dot),
            '-' => self.make_token(TokenType::Minus),
            '+' => self.make_token(TokenType::Plus),
            '/' => self.make_token(TokenType::Slash),
            '*' => self.make_token(TokenType::Star),
            '!' => {
                let token_type = if self.matches('=') {
                    TokenType::BangEqual
                } else {
                    TokenType::Bang
                };
                self.make_token(token_type)
            },
            '=' => {
                let token_type = if self.matches('=') {
                    TokenType::EqualEqual
                } else {
                    TokenType::Equal
                };
                self.make_token(token_type)
            },
            '<' => {
                let token_type = if self.matches('=') {
                    TokenType::LessEqual
                } else {
                    TokenType::Less
                };
                self.make_token(token_type)
            },
            '>' => {
                let token_type = if self.matches('=') {
                    TokenType::GreaterEqual
                } else {
                    TokenType::Greater
                };
                self.make_token(token_type)
            },
            '"' => self.string(),
            _ => {
                if alphabetic(c) {
                    self.identifier()
                } else {
                    self.error_token("Unexpected character")
                }
            },
        }
    }
}

/// A word is a keyword exactly when it starts with the keyword's first
/// letter, or first two, and goes on with the rest of it.
proof fn lemma_keywords(text: Seq<char>)
    requires
        text.len() > 0,
    ensures
        keyword(text) == if text[0] == 'a' {
            tail(text, 1, "nd"@, TokenType::And)
        } else if text[0] == 'c' {
            tail(text, 1, "lass"@, TokenType::Class)
        } else if text[0] == 'e' {
            tail(text, 1, "lse"@, TokenType::Else)
        } else if text[0] == 'f' {
            if text.len() > 1 && text[1] == 'a' {
                tail(text, 2, "lse"@, TokenType::False)
            } else if text.len() > 1 && text[1] == 'o' {
                tail(text, 2, "r"@, TokenType::For)
            } else if text.len() > 1 && text[1] == 'u' {
                tail(text, 2, "n"@, TokenType::Fun)
            } else {
                TokenType::Identifier
            }
        } else if text[0] == 'i' {
            tail(text, 1, "f"@, TokenType::If)
        } else if text[0] == 'n' {
            tail(text, 1, "il"@, TokenType::Nil)
        } else if text[0] == 'o' {
            tail(text, 1, "r"@, TokenType::Or)
        } else if text[0] == 'p' {
            tail(text, 1, "rint"@, TokenType::Print)
        } else if text[0] == 'r' {
            tail(text, 1, "eturn"@, TokenType::Return)
        } else if text[0] == 's' {
            tail(text, 1, "uper"@, TokenType::Super)
        } else if text[0] == 't' {
            if text.len() > 1 && text[1] == 'h' {
                tail(text, 2, "is"@, TokenType::This)
            } else if text.len() > 1 && text[1] == 'r' {
                tail(text, 2, "ue"@, TokenType::True)
            } else {
                TokenType::Identifier
            }
        } else if text[0] == 'v' {
            tail(text, 1, "ar"@, TokenType::Var)
        } else if text[0] == 'w' {
            tail(text, 1, "hile"@, TokenType::While)
        } else {
            TokenType::Identifier
        },
{
    reveal_strlit("and");
    reveal_strlit("nd");
    reveal_strlit("class");
    reveal_strlit("lass");
    reveal_strlit("else");
    reveal_strlit("lse");
    reveal_strlit("false");
    reveal_strlit("lse");
    reveal_strlit("for");
    reveal_strlit("r");
    reveal_strlit("fun");
    reveal_strlit("n");
    reveal_strlit("if");
    reveal_strlit("f");
    reveal_strlit("nil");
    reveal_strlit("il");
    reveal_strlit("or");
    reveal_strlit("r");
    reveal_strlit("print");
    reveal_strlit("rint");
    reveal_strlit("return");
    reveal_strlit("eturn");
    reveal_strlit("super");
    reveal_strlit("uper");
    reveal_strlit("this");
    reveal_strlit("is");
    reveal_strlit("true");
    reveal_strlit("ue");
    reveal_strlit("var");
    reveal_strlit("ar");
    reveal_strlit("while");
    reveal_strlit("hile");
    if text[0] == 'a' {
        assert(text.take(1) =~= "and"@.take(1));
        assert("nd"@ =~= "and"@.skip(1));
        lemma_spelled(text, "and"@, 1, "nd"@);
    }
    if text[0] == 'c' {
        assert(text.take(1) =~= "class"@.take(1));
        assert("lass"@ =~= "class"@.skip(1));
        lemma_spelled(text, "class"@, 1, "lass"@);
    }
    if text[0] == 'e' {
        assert(text.take(1) =~= "else"@.take(1));
        assert("lse"@ =~= "else"@.skip(1));
        lemma_spelled(text, "else"@, 1, "lse"@);
    }
    if text.len() > 1 && text[0] == 'f' && text[1] == 'a' {
        assert(text.take(2) =~= "false"@.take(2));
        assert("lse"@ =~= "false"@.skip(2));
        lemma_spelled(text, "false"@, 2, "lse"@);
    }
    if text.len() > 1 && text[0] == 'f' && text[1] == 'o' {
        assert(text.take(2) =~= "for"@.take(2));
        assert("r"@ =~= "for"@.skip(2));
        lemma_spelled(text, "for"@, 2, "r"@);
    }
    if text.len() > 1 && text[0] == 'f' && text[1] == 'u' {
        assert(text.take(2) =~= "fun"@.take(2));
        assert("n"@ =~= "fun"@.skip(2));
        lemma_spelled(text, "fun"@, 2, "n"@);
    }
    if text[0] == 'i' {
        assert(text.take(1) =~= "if"@.take(1));
        assert("f"@ =~= "if"@.skip(1));
        lemma_spelled(text, "if"@, 1, "f"@);
    }
    if text[0] == 'n' {
        assert(text.take(1) =~= "nil"@.take(1));
        assert("il"@ =~= "nil"@.skip(1));
        lemma_spelled(text, "nil"@, 1, "il"@);
    }
    if text[0] == 'o' {
        assert(text.take(1) =~= "or"@.take(1));
        assert("r"@ =~= "or"@.skip(1));
        lemma_spelled(text, "or"@, 1, "r"@);
    }
    if text[0] == 'p' {
        assert(text.take(1) =~= "print"@.take(1));
        assert("rint"@ =~= "print"@.skip(1));
        lemma_spelled(text, "print"@, 1, "rint"@);
    }
    if text[0] == 'r' {
        assert(text.take(1) =~= "return"@.take(1));
        assert("eturn"@ =~= "return"@.skip(1));
        lemma_spelled(text, "return"@, 1, "eturn"@);
    }
    if text[0] == 's' {
        assert(text.take(1) =~= "super"@.take(1));
        assert("uper"@ =~= "super"@.skip(1));
        lemma_spelled(text, "super"@, 1, "uper"@);
    }
    if text.len() > 1 && text[0] == 't' && text[1] == 'h' {
        assert(text.take(2) =~= "this"@.take(2));
        assert("is"@ =~= "this"@.skip(2));
        lemma_spelled(text, "this"@, 2, "is"@);
    }
    if text.len() > 1 && text[0] == 't' && text[1] == 'r' {
        assert(text.take(2) =~= "true"@.take(2));
        assert("ue"@ =~= "true"@.skip(2));
        lemma_spelled(text, "true"@, 2, "ue"@);
    }
    if text[0] == 'v' {
        assert(text.take(1) =~= "var"@.take(1));
        assert("ar"@ =~= "var"@.skip(1));
        lemma_spelled(text, "var"@, 1, "ar"@);
    }
    if text[0] == 'w' {
        assert(text.take(1) =~= "while"@.take(1));
        assert("hile"@ =~= "while"@.skip(1));
        lemma_spelled(text, "while"@, 1, "hile"@);
    }
}

/// A text that begins as `word` does is `word` exactly when it goes on as
/// `word` does.
proof fn lemma_spelled(text: Seq<char>, word: Seq<char>, start: int, rest: Seq<char>)
    requires
        0 <= start <= word.len(),
        start <= text.len(),
        rest == word.skip(start),
        text.take(start) == word.take(start),
    ensures
        text == word <==> text.len() == start + rest.len() && text.skip(start) == rest,
{
    if text.len() == start + rest.len() && text.skip(start) == rest {
        assert(text =~= text.take(start) + text.skip(start));
        assert(word =~= word.take(start) + word.skip(start));
    }
}

/// A word is never of kind `Error` or `Eof`.
proof fn lemma_keyword_kinds(text: Seq<char>)
    ensures
        keyword(text) != TokenType::Error,
        keyword(text) != TokenType::Eof,
{
}

/// `kind` if `text` is `start` characters followed by `rest`, and
/// `Identifier` if not.
spec fn tail(text: Seq<char>, start: int, rest: Seq<char>, kind: TokenType) -> TokenType {
    if text.len() == start + rest.len() && text.skip(start) == rest {
        kind
    } else {
        TokenType::Identifier
    }
}

} // verus!
