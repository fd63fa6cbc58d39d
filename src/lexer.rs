use vstd::prelude::*;

use crate::nodes::{int_text, push_int, push_str};

verus! {

/// The kind of a token, without its text.
#[derive(Clone, Copy, Debug, PartialEq, Eq, Structural)]
pub enum TokenKind {
    Variable,
    Number,
    Pi,
    OpAdd,
    OpSub,
    OpMul,
    OpDiv,
    OpPow,
    OpenRoundBracket,
    CloseRoundBracket,
    OpenSquareBracket,
    CloseSquareBracket,
    Semicolon,
    Assign,
}

/// A token of the surface syntax. Identifiers and number literals keep their text.
#[derive(Clone, Debug)]
pub enum Token {
    Variable(String),
    Number(String),
    Pi,
    OpAdd,
    OpSub,
    OpMul,
    OpDiv,
    OpPow,
    OpenRoundBracket,
    CloseRoundBracket,
    OpenSquareBracket,
    CloseSquareBracket,
    Semicolon,
    Assign,
}

/// A failure of the tokenizer, or a number literal too large for 128 bits.
#[derive(Clone, Copy, Debug, PartialEq, Eq, Structural)]
pub enum LexicalError {
    /// Offset and the character that starts no token.
    UnrecognizedSymbol(usize, char),
    /// Start and end offsets of a literal above `i128::MAX`.
    NumberOutOfRange(usize, usize),
}

/// The surface text of a fixed token.
pub open spec fn kind_text(k: TokenKind) -> Seq<char> {
    match k {
        TokenKind::Pi => seq!['P', 'I'],
        TokenKind::OpAdd => seq!['+'],
        TokenKind::OpSub => seq!['-'],
        TokenKind::OpMul => seq!['*'],
        TokenKind::OpDiv => seq!['/'],
        TokenKind::OpPow => seq!['*', '*'],
        TokenKind::OpenRoundBracket => seq!['('],
        TokenKind::CloseRoundBracket => seq![')'],
        TokenKind::OpenSquareBracket => seq!['['],
        TokenKind::CloseSquareBracket => seq![']'],
        TokenKind::Semicolon => seq![';'],
        TokenKind::Assign => seq!['='],
        _ => Seq::empty(),
    }
}

impl Token {
    pub open spec fn spec_kind(&self) -> TokenKind {
        match self {
            Token::Variable(_) => TokenKind::Variable,
            Token::Number(_) => TokenKind::Number,
            Token::Pi => TokenKind::Pi,
            Token::OpAdd => TokenKind::OpAdd,
            Token::OpSub => TokenKind::OpSub,
            Token::OpMul => TokenKind::OpMul,
            Token::OpDiv => TokenKind::OpDiv,
            Token::OpPow => TokenKind::OpPow,
            Token::OpenRoundBracket => TokenKind::OpenRoundBracket,
            Token::CloseRoundBracket => TokenKind::CloseRoundBracket,
            Token::OpenSquareBracket => TokenKind::OpenSquareBracket,
            Token::CloseSquareBracket => TokenKind::CloseSquareBracket,
            Token::Semicolon => TokenKind::Semicolon,
            Token::Assign => TokenKind::Assign,
        }
    }

    /// The text the token was read from.
    pub open spec fn text(&self) -> Seq<char> {
        match self {
            Token::Variable(s) => s@,
            Token::Number(s) => s@,
            _ => kind_text(self.spec_kind()),
        }
    }

    /// A copy of this token.
    pub fn duplicate(&self) -> (r: Token)
        ensures
            r.spec_kind() == self.spec_kind(),
            r.text() == self.text(),
    {
        match self {
            Token::Variable(s) => Token::Variable(s.clone()),
            Token::Number(s) => Token::Number(s.clone()),
            Token::Pi => Token::Pi,
            Token::OpAdd => Token::OpAdd,
            Token::OpSub => Token::OpSub,
            Token::OpMul => Token::OpMul,
            Token::OpDiv => Token::OpDiv,
            Token::OpPow => Token::OpPow,
            Token::OpenRoundBracket => Token::OpenRoundBracket,
            Token::CloseRoundBracket => Token::CloseRoundBracket,
            Token::OpenSquareBracket => Token::OpenSquareBracket,
            Token::CloseSquareBracket => Token::CloseSquareBracket,
            Token::Semicolon => Token::Semicolon,
            Token::Assign => Token::Assign,
        }
    }

    pub fn kind(&self) -> (k: TokenKind)
        ensures
            k == self.spec_kind(),
    {
        match self {
            Token::Variable(_) => TokenKind::Variable,
            Token::Number(_) => TokenKind::Number,
            Token::Pi => TokenKind::Pi,
            Token::OpAdd => TokenKind::OpAdd,
            Token::OpSub => TokenKind::OpSub,
            Token::OpMul => TokenKind::OpMul,
            Token::OpDiv => TokenKind::OpDiv,
            Token::OpPow => TokenKind::OpPow,
            Token::OpenRoundBracket => TokenKind::OpenRoundBracket,
            Token::CloseRoundBracket => TokenKind::CloseRoundBracket,
            Token::OpenSquareBracket => TokenKind::OpenSquareBracket,
            Token::CloseSquareBracket => TokenKind::CloseSquareBracket,
            Token::Semicolon => TokenKind::Semicolon,
            Token::Assign => TokenKind::Assign,
        }
    }
}

/// How a token is shown in messages: identifiers and numbers in double
/// quotes, other tokens as written.
pub open spec fn token_display(t: Token) -> Seq<char> {
    match t {
        Token::Variable(s) => seq!['"'] + s@ + seq!['"'],
        Token::Number(s) => seq!['"'] + s@ + seq!['"'],
        _ => t.text(),
    }
}

/// The message of a lexical error.
pub open spec fn lexical_text(e: LexicalError) -> Seq<char> {
    match e {
        LexicalError::UnrecognizedSymbol(i, c) => "lexical error: unrecognized symbol '"@ + seq![c]
            + "' at "@ + int_text(i as int),
        LexicalError::NumberOutOfRange(a, b) => "lexical error: number literal out of range at "@
            + int_text(a as int) + ".."@ + int_text(b as int),
    }
}

impl Token {
    /// The token as shown in messages.
    pub fn to_string(&self) -> (r: String)
        ensures
            r@ == token_display(*self),
    {
        let mut out: Vec<char> = Vec::new();
        match self {
            Token::Variable(s) | Token::Number(s) => {
                out.push('"');
                push_str(&mut out, s.as_str());
                out.push('"');
            },
            Token::Pi => push_str(&mut out, "PI"),
            Token::OpAdd => out.push('+'),
            Token::OpSub => out.push('-'),
            Token::OpMul => out.push('*'),
            Token::OpDiv => out.push('/'),
            Token::OpPow => push_str(&mut out, "**"),
            Token::OpenRoundBracket => out.push('('),
            Token::CloseRoundBracket => out.push(')'),
            Token::OpenSquareBracket => out.push('['),
            Token::CloseSquareBracket => out.push(']'),
            Token::Semicolon => out.push(';'),
            Token::Assign => out.push('='),
        }
        proof {
            reveal_strlit("PI");
            reveal_strlit("**");
        }
        assert(out@ =~= token_display(*self));
        string_from_chars(&out)
    }
}

impl LexicalError {
    /// The message of this error.
    pub fn message(&self) -> (r: String)
        ensures
            r@ == lexical_text(*self),
    {
        let mut out: Vec<char> = Vec::new();
        match self {
            LexicalError::UnrecognizedSymbol(i, c) => {
                push_str(&mut out, "lexical error: unrecognized symbol '");
                out.push(*c);
                push_str(&mut out, "' at ");
                push_int(&mut out, *i as i128);
            },
            LexicalError::NumberOutOfRange(a, b) => {
                push_str(&mut out, "lexical error: number literal out of range at ");
                push_int(&mut out, *a as i128);
                push_str(&mut out, "..");
                push_int(&mut out, *b as i128);
            },
        }
        assert(out@ =~= lexical_text(*self));
        string_from_chars(&out)
    }
}

pub open spec fn is_blank(c: char) -> bool {
    c == ' ' || c == '\t' || c == '\n' || c == '\r'
}

pub open spec fn is_digit(c: char) -> bool {
    '0' <= c && c <= '9'
}

pub open spec fn is_letter(c: char) -> bool {
    ('a' <= c && c <= 'z') || ('A' <= c && c <= 'Z')
}

pub open spec fn is_word_char(c: char) -> bool {
    is_letter(c) || is_digit(c) || c == '_'
}

/// The end of the run of digits (or, with `word`, of identifier characters)
/// that starts at `i`.
pub open spec fn run_end(s: Seq<char>, i: nat, word: bool) -> nat
    decreases s.len() - i,
{
    if i < s.len() && (if word { is_word_char(s[i as int]) } else { is_digit(s[i as int]) }) {
        run_end(s, i + 1, word)
    } else {
        i
    }
}

/// What the tokenizer finds from offset `i` of `s` on.
pub enum Scan {
    End,
    Found(nat, TokenKind, nat),
    Failed(LexicalError),
}

/// The kind of a single-character token, if `c` is one.
pub open spec fn single_kind(c: char) -> Option<TokenKind> {
    if c == '+' {
        Some(TokenKind::OpAdd)
    } else if c == '-' {
        Some(TokenKind::OpSub)
    } else if c == '/' {
        Some(TokenKind::OpDiv)
    } else if c == '(' {
        Some(TokenKind::OpenRoundBracket)
    } else if c == ')' {
        Some(TokenKind::CloseRoundBracket)
    } else if c == '[' {
        Some(TokenKind::OpenSquareBracket)
    } else if c == ']' {
        Some(TokenKind::CloseSquareBracket)
    } else if c == ';' {
        Some(TokenKind::Semicolon)
    } else if c == '=' {
        Some(TokenKind::Assign)
    } else {
        None
    }
}

/// The next token of `s` at or after offset `i`: blanks are skipped, `**`
/// is one token, digits and identifier characters are taken as long runs,
/// and the identifier `PI` is the constant.
pub open spec fn scan(s: Seq<char>, i: nat) -> Scan
    decreases s.len() - i,
{
    if i >= s.len() {
        Scan::End
    } else {
        let c = s[i as int];
        if is_blank(c) {
            scan(s, i + 1)
        } else if single_kind(c) is Some {
            Scan::Found(i, single_kind(c)->0, i + 1)
        } else if c == '*' {
            if i + 1 < s.len() && s[i + 1 as int] == '*' {
                Scan::Found(i, TokenKind::OpPow, i + 2)
            } else {
                Scan::Found(i, TokenKind::OpMul, i + 1)
            }
        } else if is_digit(c) {
            Scan::Found(i, TokenKind::Number, run_end(s, i + 1, false))
        } else if is_letter(c) {
            let e = run_end(s, i + 1, true);
            if s.subrange(i as int, e as int) == seq!['P', 'I'] {
                Scan::Found(i, TokenKind::Pi, e)
            } else {
                Scan::Found(i, TokenKind::Variable, e)
            }
        } else {
            Scan::Failed(LexicalError::UnrecognizedSymbol(i as usize, c))
        }
    }
}

pub proof fn lemma_run_end(s: Seq<char>, i: nat, word: bool)
    requires
        i <= s.len(),
    ensures
        i <= run_end(s, i, word) <= s.len(),
        forall|j: int|
            i <= j < run_end(s, i, word) ==> (if word {
                is_word_char(#[trigger] s[j])
            } else {
                is_digit(s[j])
            }),
    decreases s.len() - i,
{
    if i < s.len() && (if word { is_word_char(s[i as int]) } else { is_digit(s[i as int]) }) {
        lemma_run_end(s, i + 1, word);
    }
}

pub proof fn lemma_scan_bounds(s: Seq<char>, i: nat)
    ensures
        scan(s, i) matches Scan::Found(a, k, b) ==> i <= a < b <= s.len(),
    decreases s.len() - i,
{
    if i < s.len() {
        let c = s[i as int];
        if is_blank(c) {
            lemma_scan_bounds(s, i + 1);
        } else if is_digit(c) {
            lemma_run_end(s, i + 1, false);
        } else if is_letter(c) {
            lemma_run_end(s, i + 1, true);
        }
    }
}

/// The tokens of `s` from offset `i` on, up to the end or to the first
/// lexical error, which is returned beside them.
pub open spec fn lex_from(s: Seq<char>, i: nat) -> (Seq<(usize, TokenKind, usize)>, Option<LexicalError>)
    decreases s.len() - i,
{
    match scan(s, i) {
        Scan::End => (Seq::empty(), None),
        Scan::Failed(e) => (Seq::empty(), Some(e)),
        Scan::Found(a, k, b) => if i < b <= s.len() {
            let rest = lex_from(s, b);
            (seq![(a as usize, k, b as usize)] + rest.0, rest.1)
        } else {
            (Seq::empty(), None)
        },
    }
}

/// The whole token stream of `s`.
pub open spec fn lex(s: Seq<char>) -> (Seq<(usize, TokenKind, usize)>, Option<LexicalError>) {
    lex_from(s, 0)
}

/// Relies on `String`'s `FromIterator<&char>`: the string holds the characters in order.
#[verifier::external_body]
pub(crate) fn string_from_chars(v: &Vec<char>) -> (r: String)
    ensures
        r@ == v@,
{
    String::from_iter(v)
}

fn is_blank_char(c: char) -> (r: bool)
    ensures
        r == is_blank(c),
{
    c == ' ' || c == '\t' || c == '\n' || c == '\r'
}

fn is_ascii_digit(c: char) -> (r: bool)
    ensures
        r == is_digit(c),
{
    '0' <= c && c <= '9'
}

fn is_ascii_letter(c: char) -> (r: bool)
    ensures
        r == is_letter(c),
{
    ('a' <= c && c <= 'z') || ('A' <= c && c <= 'Z')
}

fn is_ident_char(c: char) -> (r: bool)
    ensures
        r == is_word_char(c),
{
    is_ascii_letter(c) || is_ascii_digit(c) || c == '_'
}

/// The single-character token that `c` is, if any.
fn single_token(c: char) -> (r: Option<Token>)
    ensures
        match single_kind(c) {
            Some(k) => r matches Some(t) && t.spec_kind() == k && t.text() == seq![c],
            None => r is None,
        },
{
    if c == '+' {
        Some(Token::OpAdd)
    } else if c == '-' {
        Some(Token::OpSub)
    } else if c == '/' {
        Some(Token::OpDiv)
    } else if c == '(' {
        Some(Token::OpenRoundBracket)
    } else if c == ')' {
        Some(Token::CloseRoundBracket)
    } else if c == '[' {
        Some(Token::OpenSquareBracket)
    } else if c == ']' {
        Some(Token::CloseSquareBracket)
    } else if c == ';' {
        Some(Token::Semicolon)
    } else if c == '=' {
        Some(Token::Assign)
    } else {
        None
    }
}

/// A tokenizer over one input; it yields tokens one by one and stops after
/// the first lexical error.
pub struct Lexer {
    chars: Vec<char>,
    pos: usize,
}

impl Lexer {
    /// The characters being tokenized.
    pub closed spec fn source(&self) -> Seq<char> {
        self.chars@
    }

    /// The offset from which the next token is looked for.
    pub closed spec fn position(&self) -> nat {
        self.pos as nat
    }

    pub closed spec fn wf(&self) -> bool {
        self.pos <= self.chars.len()
    }

    pub fn new(input: &str) -> (r: Lexer)
        ensures
            r.wf(),
            r.source() == input@,
            r.position() == 0,
    {
        let mut chars: Vec<char> = Vec::new();
        for c in it: input.chars()
            invariant
                chars@ == it.seq().take(it.index() as int),
        {
            chars.push(c);
        }
        assert(chars@ == input@);
        Lexer { chars, pos: 0 }
    }

    /// The end of the digit run that starts at `from`.
    fn get_number(&self, from: usize) -> (end: usize)
        requires
            from <= self.chars.len(),
        ensures
            end == run_end(self.chars@, from as nat, false),
            from <= end <= self.chars.len(),
    {
        proof {
            lemma_run_end(self.chars@, from as nat, false);
        }
        let mut end = from;
        while end < self.chars.len() && is_ascii_digit(self.chars[end])
            invariant
                from <= end <= self.chars.len(),
                run_end(self.chars@, from as nat, false) == run_end(self.chars@, end as nat, false),
            decreases self.chars.len() - end,
        {
            end = end + 1;
        }
        end
    }

    /// The end of the run of identifier characters that starts at `from`.
    fn get_variable(&self, from: usize) -> (end: usize)
        requires
            from <= self.chars.len(),
        ensures
            end == run_end(self.chars@, from as nat, true),
            from <= end <= self.chars.len(),
    {
        proof {
            lemma_run_end(self.chars@, from as nat, true);
        }
        let mut end = from;
        while end < self.chars.len() && is_ident_char(self.chars[end])
            invariant
                from <= end <= self.chars.len(),
                run_end(self.chars@, from as nat, true) == run_end(self.chars@, end as nat, true),
            decreases self.chars.len() - end,
        {
            end = end + 1;
        }
        end
    }

    /// The characters from `from` to `to` as a string.
    fn text(&self, from: usize, to: usize) -> (r: String)
        requires
            from <= to <= self.chars.len(),
        ensures
            r@ == self.chars@.subrange(from as int, to as int),
    {
        let mut v: Vec<char> = Vec::new();
        let mut i = from;
        while i < to
            invariant
                from <= i <= to <= self.chars.len(),
                v@ == self.chars@.subrange(from as int, i as int),
            decreases to - i,
        {
            v.push(self.chars[i]);
            i = i + 1;
        }
        string_from_chars(&v)
    }

    /// The next token, a lexical error, or `None` at the end. After an error
    /// the lexer yields nothing more.
    pub fn next_token(&mut self) -> (r: Option<Result<(usize, Token, usize), LexicalError>>)
        requires
            old(self).wf(),
        ensures
            final(self).wf(),
            final(self).source() == old(self).source(),
            match scan(old(self).source(), old(self).position()) {
                Scan::End => r is None && final(self).position() == old(self).source().len(),
                Scan::Failed(e) => r == Some(Err::<(usize, Token, usize), LexicalError>(e))
                    && final(self).position() == old(self).source().len(),
                Scan::Found(a, k, b) => r matches Some(Ok((a2, t, b2))) && a2 == a && b2 == b
                    && t.spec_kind() == k && t.text() == old(self).source().subrange(a as int, b as int)
                    && final(self).position() == b,
            },
    {
        let n = self.chars.len();
        while self.pos < n && is_blank_char(self.chars[self.pos])
            invariant
                self.wf(),
                n == self.chars.len(),
                self.chars == old(self).chars,
                scan(self.chars@, self.pos as nat) == scan(old(self).chars@, old(self).pos as nat),
            decreases n - self.pos,
        {
            self.pos = self.pos + 1;
        }
        if self.pos >= n {
            return None;
        }
        let i = self.pos;
        let c = self.chars[i];
        let single = single_token(c);
        if let Some(t) = single {
            self.pos = i + 1;
            return Some(Ok((i, t, i + 1)));
        }
        if c == '*' {
            if i + 1 < n && self.chars[i + 1] == '*' {
                self.pos = i + 2;
                return Some(Ok((i, Token::OpPow, i + 2)));
            }
            self.pos = i + 1;
            return Some(Ok((i, Token::OpMul, i + 1)));
        }
        if is_ascii_digit(c) {
            let end = self.get_number(i + 1);
            self.pos = end;
            return Some(Ok((i, Token::Number(self.text(i, end)), end)));
        }
        if is_ascii_letter(c) {
            let end = self.get_variable(i + 1);
            self.pos = end;
            if end - i == 2 && c == 'P' && self.chars[i + 1] == 'I' {
                assert(self.chars@.subrange(i as int, end as int) =~= seq!['P', 'I']);
                return Some(Ok((i, Token::Pi, end)));
            }
            assert(self.chars@.subrange(i as int, end as int) != seq!['P', 'I']) by {
                let w = self.chars@.subrange(i as int, end as int);
                if w == seq!['P', 'I'] {
                    assert(seq!['P', 'I'].len() == 2 && seq!['P', 'I'][0] == 'P' && seq!['P', 'I'][1] == 'I');
                    assert(w[0] == self.chars@[i as int]);
                    assert(w[1] == self.chars@[i + 1]);
                }
            }
            return Some(Ok((i, Token::Variable(self.text(i, end)), end)));
        }
        self.pos = n;
        Some(Err(LexicalError::UnrecognizedSymbol(i, c)))
    }
}

/// Whether the spanned tokens `ts`, read from `s`, are those of `model`:
/// same spans and kinds, and each token's text is its span of `s`.
pub open spec fn tokens_match(
    ts: Seq<(usize, Token, usize)>,
    s: Seq<char>,
    model: Seq<(usize, TokenKind, usize)>,
) -> bool {
    &&& ts.len() == model.len()
    &&& forall|k: int|
        0 <= k < ts.len() ==> {
            &&& (#[trigger] ts[k]).0 == model[k].0
            &&& ts[k].1.spec_kind() == model[k].1
            &&& ts[k].2 == model[k].2
            &&& ts[k].0 <= ts[k].2 <= s.len()
            &&& ts[k].1.text() == s.subrange(ts[k].0 as int, ts[k].2 as int)
        }
}

/// All tokens of `input`, up to its end or to the first lexical error,
/// which is returned beside them.
pub fn tokenize(input: &str) -> (r: (Vec<(usize, Token, usize)>, Option<LexicalError>))
    ensures
        tokens_match(r.0@, input@, lex(input@).0),
        r.1 == lex(input@).1,
{
    let mut lexer = Lexer::new(input);
    let ghost s = input@;
    let mut v: Vec<(usize, Token, usize)> = Vec::new();
    let ghost mut pre: Seq<(usize, TokenKind, usize)> = Seq::empty();
    loop
        invariant
            s == input@,
            lexer.wf(),
            lexer.source() == s,
            lex(s).0 == pre + lex_from(s, lexer.position()).0,
            lex(s).1 == lex_from(s, lexer.position()).1,
            tokens_match(v@, s, pre),
        decreases s.len() - lexer.position(),
    {
        let ghost p = lexer.position();
        proof {
            lemma_scan_bounds(s, p);
        }
        match lexer.next_token() {
            None => {
                assert(scan(s, p) is End);
                assert(lex_from(s, p).0 == Seq::<(usize, TokenKind, usize)>::empty());
                assert(pre + Seq::<(usize, TokenKind, usize)>::empty() =~= pre);
                assert(lex(s).0 == pre);
                return (v, None);
            },
            Some(Err(e)) => {
                assert(scan(s, p) == Scan::Failed(e));
                assert(lex_from(s, p).0 == Seq::<(usize, TokenKind, usize)>::empty());
                assert(lex_from(s, p).1 == Some(e));
                assert(pre + Seq::<(usize, TokenKind, usize)>::empty() =~= pre);
                assert(lex(s).0 == pre);
                return (v, Some(e));
            },
            Some(Ok((a, t, b))) => {
                let ghost x = (a, t.spec_kind(), b);
                proof {
                    assert(pre + lex_from(s, p).0 =~= pre.push(x) + lex_from(s, b as nat).0);
                    pre = pre.push(x);
                }
                v.push((a, t, b));
            },
        }
    }
}

} // verus!
