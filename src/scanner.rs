//! The scanner: source text to tokens, specified lexeme by lexeme.
use crate::error::ScanError;
use crate::text::{chars_of, string_of};
use crate::tokens::{Token, TokenWithSpan};
use vstd::prelude::*;

verus! {

pub open spec fn is_digit(c: char) -> bool {
    '0' <= c && c <= '9'
}

pub open spec fn is_ident_start(c: char) -> bool {
    ('a' <= c && c <= 'z') || ('A' <= c && c <= 'Z') || c == '_'
}

pub open spec fn is_ident_char(c: char) -> bool {
    is_ident_start(c) || is_digit(c)
}

/// The end of the run of identifier characters starting at `i`.
pub open spec fn ident_end(src: Seq<char>, i: int) -> int
    decreases src.len() - i,
{
    if 0 <= i < src.len() && is_ident_char(src[i]) {
        ident_end(src, i + 1)
    } else {
        i
    }
}

/// The end of the run of digits starting at `i`.
pub open spec fn digits_end(src: Seq<char>, i: int) -> int
    decreases src.len() - i,
{
    if 0 <= i < src.len() && is_digit(src[i]) {
        digits_end(src, i + 1)
    } else {
        i
    }
}

/// The index of the first `stop` at or after `i`, or the length.
pub open spec fn find_char(src: Seq<char>, i: int, stop: char) -> int
    decreases src.len() - i,
{
    if 0 <= i < src.len() && src[i] != stop {
        find_char(src, i + 1, stop)
    } else {
        i
    }
}

/// The value of a run of decimal digits.
pub open spec fn digits_value(s: Seq<char>) -> int
    decreases s.len(),
{
    if s.len() == 0 {
        0
    } else {
        digits_value(s.drop_last()) * 10 + ((s.last() as u32) - 48)
    }
}

/// The number of line breaks in `s`.
pub open spec fn newlines(s: Seq<char>) -> int
    decreases s.len(),
{
    if s.len() == 0 {
        0
    } else {
        newlines(s.drop_last()) + if s.last() == '\n' {
            1int
        } else {
            0int
        }
    }
}

/// The 1-based line of offset `pos`.
pub open spec fn line_at(src: Seq<char>, pos: int) -> int {
    1 + newlines(src.subrange(0, pos))
}

/// The symbols that are a token by themselves.
pub open spec fn is_single_symbol(c: char) -> bool {
    c == '+' || c == '-' || c == '*' || c == '/' || c == '(' || c == ')' || c == '{' || c == '}'
        || c == '[' || c == ']' || c == ';' || c == ',' || c == '.' || c == ':' || c == '='
        || c == '!' || c == '<' || c == '>'
}

/// What the scanner does at offset `pos`.
pub enum Step {
    /// Whitespace or a comment, ending at the offset.
    Skip(int),
    /// A token whose text ends at the offset.
    Emit(int),
    /// A lexical error.
    Fail(ScanError),
}

/// The scanner's step at offset `pos < src.len()`.
pub open spec fn step(src: Seq<char>, pos: int) -> Step {
    let c = src[pos];
    let next = if pos + 1 < src.len() {
        src[pos + 1]
    } else {
        '\0'
    };
    if c == ' ' || c == '\t' || c == '\r' || c == '\n' {
        Step::Skip(pos + 1)
    } else if c == '/' && next == '/' {
        Step::Skip(find_char(src, pos + 2, '\n'))
    } else if c == '"' {
        let e = find_char(src, pos + 1, '"');
        if e >= src.len() {
            Step::Fail(ScanError::UnterminatedString { line: line_at(src, src.len() as int) as usize })
        } else {
            Step::Emit(e + 1)
        }
    } else if (c == '=' || c == '!' || c == '<' || c == '>') && next == '=' {
        Step::Emit(pos + 2)
    } else if is_single_symbol(c) {
        Step::Emit(pos + 1)
    } else if is_digit(c) {
        let e = digits_end(src, pos);
        if digits_value(src.subrange(pos, e)) > i64::MAX {
            Step::Fail(ScanError::NumberTooLarge { line: line_at(src, pos) as usize })
        } else {
            Step::Emit(e)
        }
    } else if is_ident_start(c) {
        Step::Emit(ident_end(src, pos))
    } else {
        Step::Fail(ScanError::UnexpectedCharacter { character: c, line: line_at(src, pos) as usize })
    }
}

/// The spans of the tokens of `src[pos..]`, appended to `acc`, or the first
/// lexical error.
pub open spec fn lex(src: Seq<char>, pos: int, acc: Seq<(int, int)>) -> Result<
    Seq<(int, int)>,
    ScanError,
>
    decreases src.len() - pos,
{
    if pos < 0 || pos >= src.len() {
        Ok(acc)
    } else {
        match step(src, pos) {
            Step::Skip(e) => if pos < e <= src.len() {
                lex(src, e, acc)
            } else {
                Ok(acc)
            },
            Step::Emit(e) => if pos < e <= src.len() {
                lex(src, e, acc.push((pos, e)))
            } else {
                Ok(acc)
            },
            Step::Fail(err) => Err(err),
        }
    }
}

/// The text of a keyword or symbol token.
pub open spec fn fixed_text(t: Token) -> Option<Seq<char>> {
    match t {
        Token::Plus => Some(seq!['+']),
        Token::Minus => Some(seq!['-']),
        Token::Star => Some(seq!['*']),
        Token::Slash => Some(seq!['/']),
        Token::LeftParen => Some(seq!['(']),
        Token::RightParen => Some(seq![')']),
        Token::LeftBracket => Some(seq!['[']),
        Token::RightBracket => Some(seq![']']),
        Token::Equals => Some(seq!['=']),
        Token::Semicolon => Some(seq![';']),
        Token::Colon => Some(seq![':']),
        Token::Comma => Some(seq![',']),
        Token::Dot => Some(seq!['.']),
        Token::LeftBrace => Some(seq!['{']),
        Token::RightBrace => Some(seq!['}']),
        Token::Greater => Some(seq!['>']),
        Token::GreaterEqual => Some(seq!['>', '=']),
        Token::Less => Some(seq!['<']),
        Token::LessEqual => Some(seq!['<', '=']),
        Token::EqualEqual => Some(seq!['=', '=']),
        Token::BangEqual => Some(seq!['!', '=']),
        Token::Bang => Some(seq!['!']),
        Token::Let => Some(seq!['l', 'e', 't']),
        Token::Print => Some(seq!['p', 'r', 'i', 'n', 't']),
        Token::If => Some(seq!['i', 'f']),
        Token::Else => Some(seq!['e', 'l', 's', 'e']),
        Token::While => Some(seq!['w', 'h', 'i', 'l', 'e']),
        Token::True => Some(seq!['t', 'r', 'u', 'e']),
        Token::False => Some(seq!['f', 'a', 'l', 's', 'e']),
        Token::And => Some(seq!['a', 'n', 'd']),
        Token::Or => Some(seq!['o', 'r']),
        Token::Fn => Some(seq!['f', 'n']),
        Token::Return => Some(seq!['r', 'e', 't', 'u', 'r', 'n']),
        Token::For => Some(seq!['f', 'o', 'r']),
        Token::In => Some(seq!['i', 'n']),
        _ => None,
    }
}

/// Whether `text` is a reserved word.
pub open spec fn is_keyword(text: Seq<char>) -> bool {
    text == seq!['l', 'e', 't'] || text == seq!['p', 'r', 'i', 'n', 't'] || text == seq!['i', 'f']
        || text == seq!['e', 'l', 's', 'e'] || text == seq!['w', 'h', 'i', 'l', 'e'] || text
        == seq!['t', 'r', 'u', 'e'] || text == seq!['f', 'a', 'l', 's', 'e'] || text == seq![
        'a',
        'n',
        'd',
    ] || text == seq!['o', 'r'] || text == seq!['f', 'n'] || text == seq![
        'r',
        'e',
        't',
        'u',
        'r',
        'n',
    ] || text == seq!['f', 'o', 'r'] || text == seq!['i', 'n']
}

/// The token that a lexeme's text stands for.
pub open spec fn denotes(t: Token, text: Seq<char>) -> bool {
    match t {
        Token::Number(n) => text.len() > 0 && is_digit(text[0]) && n as int == digits_value(text),
        Token::StringLiteral(s) => text.len() >= 2 && text[0] == '"' && s@ == text.subrange(
            1,
            text.len() - 1,
        ),
        Token::Identifier(name) => name@ == text && text.len() > 0 && is_ident_start(text[0])
            && !is_keyword(text),
        Token::EOF => false,
        _ => fixed_text(t) == Some(text),
    }
}

/// The scanner's result for `src`: each token stands for the text of its
/// span, in order, and an end-of-input token closes the list.
pub open spec fn scanned(src: Seq<char>, from: int, toks: Seq<TokenWithSpan>) -> bool {
    match lex(src, from, Seq::empty()) {
        Ok(spans) => toks.len() == spans.len() + 1 && (forall|i: int|
            0 <= i < spans.len() ==> {
                &&& (#[trigger] toks[i]).span.0 as int == spans[i].0
                &&& toks[i].span.1 as int == spans[i].1
                &&& denotes(toks[i].token, src.subrange(spans[i].0, spans[i].1))
            }) && toks[spans.len() as int].token == Token::EOF && toks[spans.len() as int].span
            == (src.len() as usize, src.len() as usize),
        Err(_) => false,
    }
}

/// Scans source text into tokens.
pub struct Scanner {
    source: Vec<char>,
    start: usize,
    current: usize,
    line: usize,
}

pub proof fn lemma_find_char_range(src: Seq<char>, i: int, stop: char)
    requires
        0 <= i <= src.len(),
    ensures
        i <= find_char(src, i, stop) <= src.len(),
    decreases src.len() - i,
{
    if i < src.len() && src[i] != stop {
        lemma_find_char_range(src, i + 1, stop);
    }
}

pub proof fn lemma_digits_end_range(src: Seq<char>, i: int)
    requires
        0 <= i <= src.len(),
    ensures
        i <= digits_end(src, i) <= src.len(),
    decreases src.len() - i,
{
    if i < src.len() && is_digit(src[i]) {
        lemma_digits_end_range(src, i + 1);
    }
}

pub proof fn lemma_ident_end_range(src: Seq<char>, i: int)
    requires
        0 <= i <= src.len(),
    ensures
        i <= ident_end(src, i) <= src.len(),
    decreases src.len() - i,
{
    if i < src.len() && is_ident_char(src[i]) {
        lemma_ident_end_range(src, i + 1);
    }
}

/// Every step moves forward and stays within the text.
pub proof fn lemma_step_progress(src: Seq<char>, pos: int)
    requires
        0 <= pos < src.len(),
    ensures
        match step(src, pos) {
            Step::Skip(e) => pos < e <= src.len(),
            Step::Emit(e) => pos < e <= src.len(),
            Step::Fail(_) => true,
        },
{
    if pos + 2 <= src.len() {
        lemma_find_char_range(src, pos + 2, '\n');
    }
    lemma_find_char_range(src, pos + 1, '"');
    lemma_digits_end_range(src, pos + 1);
    lemma_ident_end_range(src, pos + 1);
}

/// Line breaks are at most as many as characters.
pub proof fn lemma_newlines_bound(s: Seq<char>)
    ensures
        0 <= newlines(s) <= s.len(),
    decreases s.len(),
{
    if s.len() > 0 {
        lemma_newlines_bound(s.drop_last());
    }
}

/// A prefix of a run of digits has a value no larger than the whole run.
pub proof fn lemma_digits_value_prefix(s: Seq<char>, k: int)
    requires
        0 <= k <= s.len(),
        forall|i: int| 0 <= i < s.len() ==> is_digit(#[trigger] s[i]),
    ensures
        0 <= digits_value(s.subrange(0, k)) <= digits_value(s),
    decreases s.len(),
{
    if k < s.len() {
        let t = s.drop_last();
        assert(s.subrange(0, k) =~= t.subrange(0, k));
        lemma_digits_value_prefix(t, k);
    } else {
        assert(s.subrange(0, k) =~= s);
        lemma_digits_value_nonneg(s);
    }
}

pub proof fn lemma_digits_value_nonneg(s: Seq<char>)
    requires
        forall|i: int| 0 <= i < s.len() ==> is_digit(#[trigger] s[i]),
    ensures
        0 <= digits_value(s),
    decreases s.len(),
{
    if s.len() > 0 {
        lemma_digits_value_nonneg(s.drop_last());
    }
}

/// The characters `v[a..b]`.
fn slice_chars(v: &Vec<char>, a: usize, b: usize) -> (r: Vec<char>)
    requires
        a <= b <= v.len(),
    ensures
        r@ == v@.subrange(a as int, b as int),
{
    let mut r: Vec<char> = Vec::new();
    let mut i: usize = a;
    while i < b
        invariant
            a <= i <= b,
            b <= v.len(),
            r@ == v@.subrange(a as int, i as int),
        decreases b - i,
    {
        r.push(v[i]);
        i = i + 1;
        assert(r@ =~= v@.subrange(a as int, i as int));
    }
    r
}

/// Whether two character vectors are equal.
fn same_chars(a: &Vec<char>, b: &Vec<char>) -> (r: bool)
    ensures
        r == (a@ == b@),
{
    if a.len() != b.len() {
        return false;
    }
    let mut i: usize = 0;
    while i < a.len()
        invariant
            0 <= i <= a.len(),
            a.len() == b.len(),
            forall|j: int| 0 <= j < i ==> a@[j] == b@[j],
        decreases a.len() - i,
    {
        if a[i] != b[i] {
            return false;
        }
        i = i + 1;
    }
    assert(a@ =~= b@);
    true
}

/// The keyword token that `text` spells, if any.
fn keyword(text: &Vec<char>) -> (r: Option<Token>)
    ensures
        match r {
            Some(t) => fixed_text(t) == Some(text@),
            None => !is_keyword(text@),
        },
{
    if same_chars(text, &vec!['l', 'e', 't']) {
        return Some(Token::Let);
    }
    if same_chars(text, &vec!['p', 'r', 'i', 'n', 't']) {
        return Some(Token::Print);
    }
    if same_chars(text, &vec!['i', 'f']) {
        return Some(Token::If);
    }
    if same_chars(text, &vec!['e', 'l', 's', 'e']) {
        return Some(Token::Else);
    }
    if same_chars(text, &vec!['w', 'h', 'i', 'l', 'e']) {
        return Some(Token::While);
    }
    if same_chars(text, &vec!['t', 'r', 'u', 'e']) {
        return Some(Token::True);
    }
    if same_chars(text, &vec!['f', 'a', 'l', 's', 'e']) {
        return Some(Token::False);
    }
    if same_chars(text, &vec!['a', 'n', 'd']) {
        return Some(Token::And);
    }
    if same_chars(text, &vec!['o', 'r']) {
        return Some(Token::Or);
    }
    if same_chars(text, &vec!['f', 'n']) {
        return Some(Token::Fn);
    }
    if same_chars(text, &vec!['r', 'e', 't', 'u', 'r', 'n']) {
        return Some(Token::Return);
    }
    if same_chars(text, &vec!['f', 'o', 'r']) {
        return Some(Token::For);
    }
    if same_chars(text, &vec!['i', 'n']) {
        return Some(Token::In);
    }
    None
}

impl Scanner {
    /// The source text.
    pub closed spec fn text(&self) -> Seq<char> {
        self.source@
    }

    /// The offset of the next character to scan.
    pub closed spec fn position(&self) -> int {
        self.current as int
    }

    pub closed spec fn wf(&self) -> bool {
        &&& self.current <= self.source@.len()
        &&& self.source@.len() < usize::MAX
        &&& self.line == line_at(self.source@, self.current as int)
    }

    /// A scanner at the start of `source`.
    pub fn new(source: &str) -> (r: Scanner)
        requires
            source@.len() < usize::MAX,
        ensures
            r.wf(),
            r.text() == source@,
            r.position() == 0,
    {
        let r = Scanner { source: chars_of(source), start: 0, current: 0, line: 1 };
        assert(r.source@.subrange(0, 0) =~= Seq::<char>::empty());
        r
    }

    fn is_at_end(&self) -> (r: bool)
        requires
            self.wf(),
        ensures
            r == (self.current >= self.source@.len()),
    {
        self.current >= self.source.len()
    }

    fn peek(&self) -> (c: char)
        requires
            self.wf(),
        ensures
            c == if self.current < self.source@.len() {
                self.source@[self.current as int]
            } else {
                '\0'
            },
    {
        if self.is_at_end() {
            '\0'
        } else {
            self.source[self.current]
        }
    }

    fn at_ident_char(&self) -> (r: bool)
        requires
            self.wf(),
        ensures
            r == (self.current < self.source@.len() && is_ident_char(
                self.source@[self.current as int],
            )),
    {
        let k = self.peek();
        ('a' <= k && k <= 'z') || ('A' <= k && k <= 'Z') || k == '_' || ('0' <= k && k <= '9')
    }

    fn advance(&mut self) -> (c: char)
        requires
            old(self).wf(),
            old(self).current < old(self).source@.len(),
        ensures
            final(self).wf(),
            final(self).source@ == old(self).source@,
            final(self).start == old(self).start,
            final(self).current == old(self).current + 1,
            c == old(self).source@[old(self).current as int],
    {
        let c = self.source[self.current];
        proof {
            let s = self.source@;
            let k = self.current as int;
            assert(s.subrange(0, k + 1).drop_last() =~= s.subrange(0, k));
            lemma_newlines_bound(s.subrange(0, k));
        }
        if c == '\n' {
            self.line = self.line + 1;
        }
        self.current = self.current + 1;
        c
    }

    /// Scans every token from the current position to the end of the text.
    pub fn scan_tokens(&mut self) -> (r: Result<Vec<TokenWithSpan>, ScanError>)
        requires
            old(self).wf(),
        ensures
            final(self).wf(),
            match r {
                Ok(toks) => scanned(old(self).text(), old(self).position(), toks@),
                Err(e) => lex(old(self).text(), old(self).position(), Seq::empty()) == Err::<
                    Seq<(int, int)>,
                    ScanError,
                >(e),
            },
    {
        let ghost src = self.source@;
        let ghost pos0 = self.current as int;
        let ghost spans: Seq<(int, int)> = Seq::empty();
        let mut tokens: Vec<TokenWithSpan> = Vec::new();
        while !self.is_at_end()
            invariant
                self.wf(),
                self.source@ == src,
                src == old(self).source@,
                pos0 == old(self).current,
                lex(src, pos0, Seq::empty()) == lex(src, self.current as int, spans),
                tokens@.len() == spans.len(),
                forall|i: int|
                    0 <= i < spans.len() ==> {
                        &&& (#[trigger] tokens@[i]).span.0 as int == spans[i].0
                        &&& tokens@[i].span.1 as int == spans[i].1
                        &&& denotes(tokens@[i].token, src.subrange(spans[i].0, spans[i].1))
                    },
            decreases src.len() - self.current,
        {
            self.start = self.current;
            let ghost p = self.current as int;
            proof {
                lemma_step_progress(src, p);
            }
            match self.scan_token() {
                Ok(Some(token)) => {
                    proof {
                        spans = spans.push((p, self.current as int));
                    }
                    tokens.push(TokenWithSpan { token, span: (self.start, self.current) });
                },
                Ok(None) => {},
                Err(e) => {
                    return Err(e);
                },
            }
        }
        let end = self.current;
        tokens.push(TokenWithSpan { token: Token::EOF, span: (end, end) });
        Ok(tokens)
    }

    /// Scans the lexeme that starts at the current position.
    fn scan_token(&mut self) -> (r: Result<Option<Token>, ScanError>)
        requires
            old(self).wf(),
            old(self).current < old(self).source@.len(),
            old(self).start == old(self).current,
        ensures
            final(self).wf(),
            final(self).source@ == old(self).source@,
            final(self).start == old(self).start,
            match step(old(self).source@, old(self).current as int) {
                Step::Skip(e) => r == Ok::<Option<Token>, ScanError>(None) && final(self).current == e,
                Step::Emit(e) => final(self).current == e && (r matches Ok(Some(t)) && denotes(
                    t,
                    old(self).source@.subrange(old(self).current as int, e),
                )),
                Step::Fail(err) => r == Err::<Option<Token>, ScanError>(err),
            },
    {
        let ghost src = self.source@;
        let ghost p = self.current as int;
        let line0 = self.line;
        let c = self.advance();
        let next = self.peek();
        if c == ' ' || c == '\t' || c == '\r' || c == '\n' {
            return Ok(None);
        }
        if c == '/' && next == '/' {
            self.advance();
            while self.current < self.source.len() && self.source[self.current] != '\n'
                invariant
                    self.wf(),
                    self.source@ == src,
                    src == old(self).source@,
                    p == old(self).current,
                    line0 == line_at(src, p),
                    self.start == old(self).start,
                    p + 2 <= self.current,
                    find_char(src, p + 2, '\n') == find_char(src, self.current as int, '\n'),
                decreases src.len() - self.current,
            {
                self.advance();
            }
            return Ok(None);
        }
        if c == '"' {
            while self.current < self.source.len() && self.source[self.current] != '"'
                invariant
                    self.wf(),
                    self.source@ == src,
                    src == old(self).source@,
                    p == old(self).current,
                    line0 == line_at(src, p),
                    self.start == old(self).start,
                    p + 1 <= self.current,
                    find_char(src, p + 1, '"') == find_char(src, self.current as int, '"'),
                decreases src.len() - self.current,
            {
                self.advance();
            }
            if self.is_at_end() {
                return Err(ScanError::UnterminatedString { line: self.line });
            }
            self.advance();
            let inner = slice_chars(&self.source, self.start + 1, self.current - 1);
            let ghost text = src.subrange(p, self.current as int);
            assert(inner@ =~= text.subrange(1, text.len() - 1));
            return Ok(Some(Token::StringLiteral(string_of(&inner))));
        }
        if (c == '=' || c == '!' || c == '<' || c == '>') && next == '=' {
            self.advance();
            let ghost text = src.subrange(p, p + 2);
            assert(text =~= seq![c, '=']);
            let t = if c == '=' {
                Token::EqualEqual
            } else if c == '!' {
                Token::BangEqual
            } else if c == '<' {
                Token::LessEqual
            } else {
                Token::GreaterEqual
            };
            return Ok(Some(t));
        }
        let single = match c {
            '+' => Some(Token::Plus),
            '-' => Some(Token::Minus),
            '*' => Some(Token::Star),
            '/' => Some(Token::Slash),
            '(' => Some(Token::LeftParen),
            ')' => Some(Token::RightParen),
            '{' => Some(Token::LeftBrace),
            '}' => Some(Token::RightBrace),
            '[' => Some(Token::LeftBracket),
            ']' => Some(Token::RightBracket),
            ';' => Some(Token::Semicolon),
            ',' => Some(Token::Comma),
            '.' => Some(Token::Dot),
            ':' => Some(Token::Colon),
            '=' => Some(Token::Equals),
            '!' => Some(Token::Bang),
            '<' => Some(Token::Less),
            '>' => Some(Token::Greater),
            _ => None,
        };
        if let Some(t) = single {
            assert(src.subrange(p, p + 1) =~= seq![c]);
            return Ok(Some(t));
        }
        if '0' <= c && c <= '9' {
            while '0' <= self.peek() && self.peek() <= '9'
                invariant
                    self.wf(),
                    self.source@ == src,
                    src == old(self).source@,
                    p == old(self).current,
                    line0 == line_at(src, p),
                    self.start == old(self).start,
                    p + 1 <= self.current,
                    digits_end(src, p) == digits_end(src, self.current as int),
                    forall|i: int| p <= i < self.current ==> is_digit(#[trigger] src[i]),
                decreases src.len() - self.current,
            {
                self.advance();
            }
            assert(digits_end(src, self.current as int) == self.current as int);
            let ghost text = src.subrange(p, self.current as int);
            let mut n: i64 = 0;
            let mut i: usize = self.start;
            while i < self.current
                invariant
                    self.wf(),
                    src == old(self).source@,
                    p == old(self).current,
                    line0 == line_at(src, p),
                    self.current as int == digits_end(src, p),
                    self.start == old(self).start,
                    self.start as int == p,
                    p <= i <= self.current,
                    self.current <= src.len(),
                    self.source@ == src,
                    text == src.subrange(p, self.current as int),
                    forall|j: int| p <= j < self.current ==> is_digit(#[trigger] src[j]),
                    n as int == digits_value(text.subrange(0, i - p)),
                decreases self.current - i,
            {
                let d = (self.source[i] as u32 - 48) as i64;
                proof {
                    assert(text.subrange(0, i + 1 - p).drop_last() =~= text.subrange(0, i - p));
                    assert forall|j: int| 0 <= j < text.len() implies is_digit(#[trigger] text[j]) by {
                        assert(text[j] == src[p + j]);
                    }
                }
                match n.checked_mul(10) {
                    Some(m) => match m.checked_add(d) {
                        Some(v) => {
                            n = v;
                        },
                        None => {
                            proof {
                                lemma_digits_value_prefix(text, i + 1 - p);
                            }
                            return Err(ScanError::NumberTooLarge { line: line0 });
                        },
                    },
                    None => {
                        proof {
                            lemma_digits_value_prefix(text, i + 1 - p);
                            lemma_digits_value_prefix(text, i - p);
                        }
                        return Err(ScanError::NumberTooLarge { line: line0 });
                    },
                }
                i = i + 1;
            }
            assert(text.subrange(0, text.len() as int) =~= text);
            return Ok(Some(Token::Number(n)));
        }
        if ('a' <= c && c <= 'z') || ('A' <= c && c <= 'Z') || c == '_' {
            while self.at_ident_char()
                invariant
                    self.wf(),
                    self.source@ == src,
                    src == old(self).source@,
                    p == old(self).current,
                    line0 == line_at(src, p),
                    self.start == old(self).start,
                    p + 1 <= self.current,
                    ident_end(src, p) == ident_end(src, self.current as int),
                decreases src.len() - self.current,
            {
                self.advance();
            }
            assert(ident_end(src, self.current as int) == self.current as int);
            let text = slice_chars(&self.source, self.start, self.current);
            assert(text@[0] == c);
            return match keyword(&text) {
                Some(t) => Ok(Some(t)),
                None => Ok(Some(Token::Identifier(string_of(&text)))),
            };
        }
        Err(ScanError::UnexpectedCharacter { character: c, line: line0 })
    }
}

} // verus!
