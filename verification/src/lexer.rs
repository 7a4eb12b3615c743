//! Lexer for nginx configuration files.
//!
//! The token stream is lossless: the whitespace before each token followed
//! by the token's text, over all tokens, is the source again.
use vstd::prelude::*;
use crate::ast::{Position, Span};
use crate::error::ParseError;
use crate::text::{chars_of, push_char};

verus! {

// ---------------------------------------------------------------------------
// Character classes
// ---------------------------------------------------------------------------

/// Whitespace that separates tokens on one line
pub open spec fn is_blank(c: char) -> bool {
    c == ' ' || c == '\t' || c == '\r'
}

/// Characters that end a bare word
pub open spec fn is_delim(c: char) -> bool {
    is_blank(c) || c == '\n' || c == ';' || c == '{' || c == '}'
}

pub open spec fn is_ident_start(c: char) -> bool {
    ('a' <= c && c <= 'z') || ('A' <= c && c <= 'Z') || c == '_'
}

pub open spec fn is_ident_char(c: char) -> bool {
    is_ident_start(c) || ('0' <= c && c <= '9')
}

/// A word made of a letter or `_` followed by letters, digits and `_`
pub open spec fn is_ident(s: Seq<char>) -> bool {
    s.len() > 0 && is_ident_start(s[0]) && forall|i: int| 0 <= i < s.len() ==> is_ident_char(#[trigger] s[i])
}

pub open spec fn all_blank(s: Seq<char>) -> bool {
    forall|i: int| 0 <= i < s.len() ==> is_blank(#[trigger] s[i])
}

pub open spec fn no_delims(s: Seq<char>) -> bool {
    forall|i: int| 0 <= i < s.len() ==> !is_delim(#[trigger] s[i])
}

pub open spec fn no_newline(s: Seq<char>) -> bool {
    forall|i: int| 0 <= i < s.len() ==> #[trigger] s[i] != '\n'
}

/// `rest` holds only blanks up to the end of its line
pub open spec fn blank_to_eol(rest: Seq<char>) -> bool
    decreases rest.len(),
{
    if rest.len() == 0 {
        true
    } else if rest[0] == '\n' {
        true
    } else {
        is_blank(rest[0]) && blank_to_eol(rest.drop_first())
    }
}

/// The inside of a quoted string: every `\` escapes the next character and
/// no unescaped `q` occurs
pub open spec fn quoted_body(b: Seq<char>, q: char) -> bool
    decreases b.len(),
{
    if b.len() == 0 {
        true
    } else if b[0] == '\\' {
        b.len() >= 2 && quoted_body(b.skip(2), q)
    } else if b[0] == q {
        false
    } else {
        quoted_body(b.drop_first(), q)
    }
}

/// No closing `q` occurs in `b` (reading escapes as [`quoted_body`] does)
pub open spec fn unterminated(b: Seq<char>, q: char) -> bool
    decreases b.len(),
{
    if b.len() == 0 {
        true
    } else if b[0] == '\\' {
        b.len() == 1 || unterminated(b.skip(2), q)
    } else if b[0] == q {
        false
    } else {
        unterminated(b.drop_first(), q)
    }
}

// ---------------------------------------------------------------------------
// Positions
// ---------------------------------------------------------------------------

pub open spec fn count_newlines(s: Seq<char>) -> nat
    decreases s.len(),
{
    if s.len() == 0 {
        0
    } else {
        count_newlines(s.drop_last()) + if s.last() == '\n' { 1nat } else { 0nat }
    }
}

/// Index where the last line of `s` starts
pub open spec fn line_start(s: Seq<char>) -> nat
    decreases s.len(),
{
    if s.len() == 0 {
        0
    } else if s.last() == '\n' {
        s.len()
    } else {
        line_start(s.drop_last())
    }
}

/// Number of bytes of the UTF-8 encoding of `c`
pub open spec fn utf8_width(c: char) -> nat {
    if (c as u32) < 0x80 {
        1
    } else if (c as u32) < 0x800 {
        2
    } else if (c as u32) < 0x10000 {
        3
    } else {
        4
    }
}

/// Number of bytes of the UTF-8 encoding of `s`
pub open spec fn utf8_len(s: Seq<char>) -> nat
    decreases s.len(),
{
    if s.len() == 0 {
        0
    } else {
        utf8_len(s.drop_last()) + utf8_width(s.last())
    }
}

/// `(a + b)` takes as many bytes as `a` and `b`
pub proof fn lemma_utf8_len_concat(a: Seq<char>, b: Seq<char>)
    ensures
        utf8_len(a + b) == utf8_len(a) + utf8_len(b),
    decreases b.len(),
{
    if b.len() == 0 {
        assert(a + b =~= a);
    } else {
        lemma_utf8_len_concat(a, b.drop_last());
        assert((a + b).drop_last() =~= a + b.drop_last());
    }
}

/// `(a + b)` holds as many newlines as `a` and `b`
pub proof fn lemma_count_newlines_concat(a: Seq<char>, b: Seq<char>)
    ensures
        count_newlines(a + b) == count_newlines(a) + count_newlines(b),
    decreases b.len(),
{
    if b.len() == 0 {
        assert(a + b =~= a);
    } else {
        lemma_count_newlines_concat(a, b.drop_last());
        assert((a + b).drop_last() =~= a + b.drop_last());
    }
}

/// `p` is the position of index `i` of `src`: line and column from 1,
/// the column counted in characters, the offset in bytes
pub open spec fn at_position(p: Position, src: Seq<char>, i: int) -> bool {
    let pre = src.take(i);
    &&& p.line == 1 + count_newlines(pre)
    &&& p.column == i - line_start(pre) + 1
    &&& p.offset == utf8_len(pre)
}

// ---------------------------------------------------------------------------
// Tokens
// ---------------------------------------------------------------------------

/// Kind of token, with its value where it has one
#[derive(Debug, Clone)]
pub enum TokenKind {
    /// A bare word that is an identifier
    Ident(String),
    /// Any other bare word
    Argument(String),
    /// `'...'`, the value without the quotes
    SingleQuotedString(String),
    /// `"..."`, the value without the quotes
    DoubleQuotedString(String),
    /// `$name`, the value without the `$`
    Variable(String),
    /// `# ...` up to the end of the line, without trailing blanks
    Comment(String),
    Semicolon,
    OpenBrace,
    CloseBrace,
    Newline,
    Eof,
}

/// A token with its source text and the blanks before it
#[derive(Debug, Clone)]
pub struct Token {
    pub kind: TokenKind,
    pub span: Span,
    /// Source text of the token
    pub raw: String,
    /// Blanks between the previous token and this one
    pub leading_whitespace: String,
}

/// Model of a [`TokenKind`]: the kind, with its value as text
pub ghost enum TokenKindV {
    Ident(Seq<char>),
    Argument(Seq<char>),
    SingleQuotedString(Seq<char>),
    DoubleQuotedString(Seq<char>),
    Variable(Seq<char>),
    Comment(Seq<char>),
    Semicolon,
    OpenBrace,
    CloseBrace,
    Newline,
    Eof,
}

impl View for TokenKind {
    type V = TokenKindV;

    open spec fn view(&self) -> TokenKindV {
        match self {
            TokenKind::Ident(v) => TokenKindV::Ident(v@),
            TokenKind::Argument(v) => TokenKindV::Argument(v@),
            TokenKind::SingleQuotedString(v) => TokenKindV::SingleQuotedString(v@),
            TokenKind::DoubleQuotedString(v) => TokenKindV::DoubleQuotedString(v@),
            TokenKind::Variable(v) => TokenKindV::Variable(v@),
            TokenKind::Comment(v) => TokenKindV::Comment(v@),
            TokenKind::Semicolon => TokenKindV::Semicolon,
            TokenKind::OpenBrace => TokenKindV::OpenBrace,
            TokenKind::CloseBrace => TokenKindV::CloseBrace,
            TokenKind::Newline => TokenKindV::Newline,
            TokenKind::Eof => TokenKindV::Eof,
        }
    }
}

/// Model of a [`Token`]
pub ghost struct TokenV {
    pub kind: TokenKindV,
    pub span: Span,
    pub raw: Seq<char>,
    pub leading_whitespace: Seq<char>,
}

impl View for Token {
    type V = TokenV;

    open spec fn view(&self) -> TokenV {
        TokenV {
            kind: self.kind@,
            span: self.span,
            raw: self.raw@,
            leading_whitespace: self.leading_whitespace@,
        }
    }
}

impl TokenKind {
    /// Name of the kind for messages
    pub fn display_name(&self) -> (s: &'static str)
        ensures
            s@ == spec_display_name(*self),
    {
        proof {
            reveal_strlit("identifier");
            reveal_strlit("argument");
            reveal_strlit("string");
            reveal_strlit("variable");
            reveal_strlit("comment");
            reveal_strlit("';'");
            reveal_strlit("'{'");
            reveal_strlit("'}'");
            reveal_strlit("newline");
            reveal_strlit("end of file");
        }
        match self {
            TokenKind::Ident(_) => "identifier",
            TokenKind::Argument(_) => "argument",
            TokenKind::SingleQuotedString(_) => "string",
            TokenKind::DoubleQuotedString(_) => "string",
            TokenKind::Variable(_) => "variable",
            TokenKind::Comment(_) => "comment",
            TokenKind::Semicolon => "';'",
            TokenKind::OpenBrace => "'{'",
            TokenKind::CloseBrace => "'}'",
            TokenKind::Newline => "newline",
            TokenKind::Eof => "end of file",
        }
    }
}

pub open spec fn spec_display_name(k: TokenKind) -> Seq<char> {
    match k {
        TokenKind::Ident(_) => seq!['i', 'd', 'e', 'n', 't', 'i', 'f', 'i', 'e', 'r'],
        TokenKind::Argument(_) => seq!['a', 'r', 'g', 'u', 'm', 'e', 'n', 't'],
        TokenKind::SingleQuotedString(_) => seq!['s', 't', 'r', 'i', 'n', 'g'],
        TokenKind::DoubleQuotedString(_) => seq!['s', 't', 'r', 'i', 'n', 'g'],
        TokenKind::Variable(_) => seq!['v', 'a', 'r', 'i', 'a', 'b', 'l', 'e'],
        TokenKind::Comment(_) => seq!['c', 'o', 'm', 'm', 'e', 'n', 't'],
        TokenKind::Semicolon => seq!['\'', ';', '\''],
        TokenKind::OpenBrace => seq!['\'', '{', '\''],
        TokenKind::CloseBrace => seq!['\'', '}', '\''],
        TokenKind::Newline => seq!['n', 'e', 'w', 'l', 'i', 'n', 'e'],
        TokenKind::Eof => seq!['e', 'n', 'd', ' ', 'o', 'f', ' ', 'f', 'i', 'l', 'e'],
    }
}

/// A bare word, followed in the source by `rest`
pub open spec fn word_ok(raw: Seq<char>, rest: Seq<char>) -> bool {
    &&& raw.len() > 0
    &&& no_delims(raw)
    &&& raw[0] != '#' && raw[0] != '"' && raw[0] != '\''
    &&& (rest.len() == 0 || is_delim(rest[0]))
}

/// A quoted string with quote `q`
pub open spec fn quoted_ok(raw: Seq<char>, q: char) -> bool {
    &&& raw.len() >= 2
    &&& raw[0] == q
    &&& raw.last() == q
    &&& quoted_body(raw.subrange(1, raw.len() - 1), q)
}

/// What the text `raw` of a token of kind `kind` is, when `rest` follows it
pub open spec fn token_text_ok(kind: TokenKind, raw: Seq<char>, rest: Seq<char>) -> bool {
    match kind {
        TokenKind::Eof => raw.len() == 0 && rest.len() == 0,
        TokenKind::Newline => raw == seq!['\n'],
        TokenKind::Semicolon => raw == seq![';'],
        TokenKind::OpenBrace => raw == seq!['{'],
        TokenKind::CloseBrace => raw == seq!['}'],
        TokenKind::Comment(text) => {
            &&& text@ == raw
            &&& raw.len() > 0 && raw[0] == '#'
            &&& no_newline(raw)
            &&& !is_blank(raw.last())
            &&& blank_to_eol(rest)
        },
        TokenKind::Variable(v) => word_ok(raw, rest) && raw[0] == '$' && v@ == raw.drop_first(),
        TokenKind::Ident(v) => word_ok(raw, rest) && raw[0] != '$' && is_ident(raw) && v@ == raw,
        TokenKind::Argument(v) => word_ok(raw, rest) && raw[0] != '$' && !is_ident(raw) && v@
            == raw,
        TokenKind::DoubleQuotedString(v) => quoted_ok(raw, '"') && v@ == raw.subrange(
            1,
            raw.len() - 1,
        ),
        TokenKind::SingleQuotedString(v) => quoted_ok(raw, '\'') && v@ == raw.subrange(
            1,
            raw.len() - 1,
        ),
    }
}

/// The source text that `toks` stand for: each token's leading blanks and text
pub open spec fn tokens_text(toks: Seq<Token>) -> Seq<char>
    decreases toks.len(),
{
    if toks.len() == 0 {
        seq![]
    } else {
        tokens_text(toks.drop_last()) + toks.last().leading_whitespace@ + toks.last().raw@
    }
}

/// `t` is what `src` holds from index `p` on: its leading blanks, then its text
pub open spec fn token_here(src: Seq<char>, t: Token, p: int) -> bool {
    let start: int = p + t.leading_whitespace@.len();
    let end: int = start + t.raw@.len();
    &&& 0 <= p
    &&& end <= src.len()
    &&& src.subrange(p, end) == t.leading_whitespace@ + t.raw@
    &&& all_blank(t.leading_whitespace@)
    &&& token_text_ok(t.kind, t.raw@, src.skip(end))
    &&& at_position(t.span.start, src, start)
    &&& at_position(t.span.end, src, end)
}

/// Token `k` of `toks` is what the source holds at its place
pub open spec fn token_at_ok(src: Seq<char>, toks: Seq<Token>, k: int) -> bool {
    token_here(src, toks[k], tokens_text(toks.take(k)).len() as int)
}

/// `toks` read the first `tokens_text(toks).len()` characters of `src`, with no end of file
pub open spec fn lexed_prefix(src: Seq<char>, toks: Seq<Token>) -> bool {
    &&& src.take(tokens_text(toks).len() as int) == tokens_text(toks)
    &&& tokens_text(toks).len() <= src.len()
    &&& forall|k: int| 0 <= k < toks.len() ==> token_at_ok(src, toks, k)
    &&& forall|k: int| 0 <= k < toks.len() ==> !(#[trigger] toks[k].kind is Eof)
}

/// `toks` is the token stream of `src`
pub open spec fn lexed(src: Seq<char>, toks: Seq<Token>) -> bool {
    &&& toks.len() > 0
    &&& toks.last().kind is Eof
    &&& tokens_text(toks) == src
    &&& lexed_prefix(src, toks.drop_last())
    &&& token_at_ok(src, toks, toks.len() - 1)
}

/// `src` holds, after the tokens `toks` and some blanks, at index `q` a quote
/// that is never closed, and `e` reports that quote's position
pub open spec fn fails_at(src: Seq<char>, toks: Seq<Token>, q: int, e: ParseError) -> bool {
    let p = tokens_text(toks).len() as int;
    &&& lexed_prefix(src, toks)
    &&& p <= q < src.len()
    &&& all_blank(src.subrange(p, q))
    &&& (src[q] == '"' || src[q] == '\'')
    &&& unterminated(src.skip(q + 1), src[q])
    &&& e matches ParseError::UnterminatedString { position } && at_position(position, src, q)
}

/// Lexing `src` fails with `e`
pub open spec fn lex_fails(src: Seq<char>, e: ParseError) -> bool {
    exists|toks: Seq<Token>, q: int| #[trigger] fails_at(src, toks, q, e)
}

// ---------------------------------------------------------------------------
// Lemmas
// ---------------------------------------------------------------------------

proof fn lemma_counts_bounded(s: Seq<char>)
    ensures
        count_newlines(s) <= s.len(),
        line_start(s) <= s.len(),
        s.len() <= utf8_len(s),
    decreases s.len(),
{
    if s.len() > 0 {
        lemma_counts_bounded(s.drop_last());
    }
}

proof fn lemma_utf8_len_prefix(s: Seq<char>, i: int)
    requires
        0 <= i <= s.len(),
    ensures
        utf8_len(s.take(i)) <= utf8_len(s),
    decreases s.len() - i,
{
    if i < s.len() {
        lemma_utf8_len_prefix(s, i + 1);
        assert(s.take(i + 1).drop_last() =~= s.take(i));
    } else {
        assert(s.take(i) =~= s);
    }
}

proof fn lemma_quoted_step(b: Seq<char>, j: int, q: char)
    requires
        0 <= j < b.len(),
        b[j] != '\\',
        b[j] != q,
    ensures
        unterminated(b.skip(j), q) == unterminated(b.skip(j + 1), q),
{
    assert(b.skip(j).drop_first() =~= b.skip(j + 1));
}

proof fn lemma_quoted_escape(b: Seq<char>, j: int, q: char)
    requires
        0 <= j,
        j + 1 < b.len(),
        b[j] == '\\',
    ensures
        unterminated(b.skip(j), q) == unterminated(b.skip(j + 2), q),
{
    assert(b.skip(j).skip(2) =~= b.skip(j + 2));
}

proof fn lemma_body_push(b: Seq<char>, c: char, q: char)
    requires
        quoted_body(b, q),
        c != '\\',
        c != q,
    ensures
        quoted_body(b.push(c), q),
    decreases b.len(),
{
    let bc = b.push(c);
    if b.len() == 0 {
        assert(bc.drop_first() =~= Seq::<char>::empty());
        assert(quoted_body(Seq::<char>::empty(), q));
        assert(bc[0] == c);
        assert(quoted_body(bc.drop_first(), q));
    } else if b[0] == '\\' {
        assert(quoted_body(b.skip(2), q));
        lemma_body_push(b.skip(2), c, q);
        assert(bc.skip(2) =~= b.skip(2).push(c));
        assert(bc[0] == '\\');
    } else {
        assert(quoted_body(b.drop_first(), q));
        lemma_body_push(b.drop_first(), c, q);
        assert(bc.drop_first() =~= b.drop_first().push(c));
        assert(bc[0] == b[0]);
    }
}

proof fn lemma_body_push_escape(b: Seq<char>, c: char, q: char)
    requires
        quoted_body(b, q),
    ensures
        quoted_body(b.push('\\').push(c), q),
    decreases b.len(),
{
    let bc = b.push('\\').push(c);
    if b.len() == 0 {
        assert(bc.skip(2) =~= Seq::<char>::empty());
        assert(quoted_body(Seq::<char>::empty(), q));
        assert(bc[0] == '\\');
        assert(quoted_body(bc.skip(2), q));
    } else if b[0] == '\\' {
        assert(quoted_body(b.skip(2), q));
        lemma_body_push_escape(b.skip(2), c, q);
        assert(bc.skip(2) =~= b.skip(2).push('\\').push(c));
        assert(bc[0] == '\\');
    } else {
        assert(quoted_body(b.drop_first(), q));
        lemma_body_push_escape(b.drop_first(), c, q);
        assert(bc.drop_first() =~= b.drop_first().push('\\').push(c));
        assert(bc[0] == b[0]);
    }
}

proof fn lemma_blank_to_eol(s: Seq<char>, m: int)
    requires
        0 <= m <= s.len(),
        all_blank(s.take(m)),
        m == s.len() || s[m] == '\n',
    ensures
        blank_to_eol(s),
    decreases m,
{
    if m > 0 {
        assert(s.drop_first().take(m - 1) =~= s.take(m).drop_first());
        assert(is_blank(s.take(m)[0]));
        lemma_blank_to_eol(s.drop_first(), m - 1);
    }
}

/// Appending one token keeps the earlier tokens' facts
proof fn lemma_push_token(src: Seq<char>, toks: Seq<Token>, t: Token)
    requires
        forall|k: int| 0 <= k < toks.len() ==> token_at_ok(src, toks, k),
    ensures
        forall|k: int| 0 <= k < toks.len() ==> token_at_ok(src, toks.push(t), k),
        tokens_text(toks.push(t)) == tokens_text(toks) + t.leading_whitespace@ + t.raw@,
        toks.push(t).take(toks.len() as int) == toks,
        toks.push(t).drop_last() == toks,
{
    assert(toks.push(t).drop_last() =~= toks);
    assert(toks.push(t).take(toks.len() as int) =~= toks);
    assert forall|k: int| 0 <= k < toks.len() implies token_at_ok(src, toks.push(t), k) by {
        assert(token_at_ok(src, toks, k));
        assert(toks.push(t).take(k) =~= toks.take(k));
        assert(toks.push(t)[k] == toks[k]);
    }
}

proof fn lemma_lex_fails(src: Seq<char>, toks: Seq<Token>, q: int, position: Position)
    requires
        lexed_prefix(src, toks),
        tokens_text(toks).len() <= q < src.len(),
        all_blank(src.subrange(tokens_text(toks).len() as int, q)),
        src[q] == '"' || src[q] == '\'',
        unterminated(src.skip(q + 1), src[q]),
        at_position(position, src, q),
    ensures
        lex_fails(src, ParseError::UnterminatedString { position }),
{
    let e = ParseError::UnterminatedString { position };
    assert(fails_at(src, toks, q, e));
}

// ---------------------------------------------------------------------------
// Executable lexer
// ---------------------------------------------------------------------------

fn is_blank_char(c: char) -> (r: bool)
    ensures
        r == is_blank(c),
{
    c == ' ' || c == '\t' || c == '\r'
}

fn is_delim_char(c: char) -> (r: bool)
    ensures
        r == is_delim(c),
{
    is_blank_char(c) || c == '\n' || c == ';' || c == '{' || c == '}'
}

pub fn utf8_width_of(c: char) -> (w: usize)
    ensures
        w == utf8_width(c),
{
    let u = c as u32;
    if u < 0x80 {
        1
    } else if u < 0x800 {
        2
    } else if u < 0x10000 {
        3
    } else {
        4
    }
}

/// Number of bytes of the UTF-8 encoding of `s` (`str::len`)
pub fn utf8_len_of(s: &str) -> (n: usize)
    requires
        utf8_len(s@) <= usize::MAX,
    ensures
        n == utf8_len(s@),
{
    let cs = chars_of(s);
    let mut n: usize = 0;
    let mut i: usize = 0;
    while i < cs.len()
        invariant
            cs@ == s@,
            i <= cs@.len(),
            n == utf8_len(cs@.take(i as int)),
            utf8_len(s@) <= usize::MAX,
        decreases cs@.len() - i,
    {
        proof {
            assert(cs@.take(i + 1).drop_last() =~= cs@.take(i as int));
            lemma_utf8_len_prefix(cs@, i + 1);
        }
        n = n + utf8_width_of(cs[i]);
        i += 1;
    }
    assert(cs@.take(i as int) =~= cs@);
    n
}

/// Number of bytes of the UTF-8 encoding of `s`, or `None` when that number
/// is no machine integer
pub fn utf8_len_capped(s: &str) -> (r: Option<usize>)
    ensures
        match r {
            Some(n) => n == utf8_len(s@),
            None => utf8_len(s@) > usize::MAX,
        },
{
    let cs = chars_of(s);
    let mut n: usize = 0;
    let mut i: usize = 0;
    while i < cs.len()
        invariant
            cs@ == s@,
            i <= cs@.len(),
            n == utf8_len(cs@.take(i as int)),
        decreases cs@.len() - i,
    {
        proof {
            assert(cs@.take(i + 1).drop_last() =~= cs@.take(i as int));
            lemma_utf8_len_prefix(cs@, i + 1);
        }
        let w = utf8_width_of(cs[i]);
        if n > usize::MAX - w {
            return None;
        }
        n = n + w;
        i += 1;
    }
    assert(cs@.take(i as int) =~= cs@);
    Some(n)
}

/// The position after `src[i]`, given the position of `src[i]`
fn step_position(p: Position, src: Ghost<Seq<char>>, i: usize, c: char) -> (r: Position)
    requires
        at_position(p, src@, i as int),
        i < src@.len(),
        src@[i as int] == c,
        utf8_len(src@) < usize::MAX,
    ensures
        at_position(r, src@, i + 1),
{
    proof {
        let s = src@;
        assert(s.take(i + 1).drop_last() =~= s.take(i as int));
        lemma_utf8_len_prefix(s, i + 1);
        lemma_counts_bounded(s.take(i + 1));
    }
    let w = utf8_width_of(c);
    if c == '\n' {
        Position { line: p.line + 1, column: 1, offset: p.offset + w }
    } else {
        Position { line: p.line, column: p.column + 1, offset: p.offset + w }
    }
}

fn is_ident_range(cs: &Vec<char>, from: usize, to: usize) -> (r: bool)
    requires
        from <= to <= cs@.len(),
    ensures
        r == is_ident(cs@.subrange(from as int, to as int)),
{
    if from == to {
        return false;
    }
    let c0 = cs[from];
    if !(('a' <= c0 && c0 <= 'z') || ('A' <= c0 && c0 <= 'Z') || c0 == '_') {
        return false;
    }
    let mut j = from;
    while j < to
        invariant
            from <= j <= to <= cs@.len(),
            forall|k: int| from <= k < j ==> is_ident_char(#[trigger] cs@[k]),
        decreases to - j,
    {
        let c = cs[j];
        if !(('a' <= c && c <= 'z') || ('A' <= c && c <= 'Z') || c == '_' || ('0' <= c && c
            <= '9')) {
            assert(!is_ident_char(cs@.subrange(from as int, to as int)[j - from]));
            return false;
        }
        j += 1;
    }
    assert forall|k: int| 0 <= k < to - from implies is_ident_char(
        #[trigger] cs@.subrange(from as int, to as int)[k],
    ) by {
        assert(cs@.subrange(from as int, to as int)[k] == cs@[from + k]);
    }
    true
}

/// Copies `cs[from..to]` into a new string
fn string_of_range(cs: &Vec<char>, from: usize, to: usize) -> (s: String)
    requires
        from <= to <= cs@.len(),
    ensures
        s@ == cs@.subrange(from as int, to as int),
{
    let mut s = String::new();
    let mut j = from;
    while j < to
        invariant
            from <= j <= to <= cs@.len(),
            s@ == cs@.subrange(from as int, j as int),
        decreases to - j,
    {
        push_char(&mut s, cs[j]);
        assert(cs@.subrange(from as int, j + 1) =~= cs@.subrange(from as int, j as int).push(
            cs@[j as int],
        ));
        j += 1;
    }
    s
}

/// Steps `pos` over `src[from..to]`
fn advance_over(cs: &Vec<char>, src: Ghost<Seq<char>>, from: usize, to: usize, pos: Position) -> (r:
    Position)
    requires
        cs@ == src@,
        from <= to <= cs@.len(),
        utf8_len(src@) < usize::MAX,
        at_position(pos, src@, from as int),
    ensures
        at_position(r, src@, to as int),
{
    let mut p = pos;
    let mut k = from;
    while k < to
        invariant
            cs@ == src@,
            from <= k <= to <= cs@.len(),
            utf8_len(src@) < usize::MAX,
            at_position(p, src@, k as int),
        decreases to - k,
    {
        p = step_position(p, src, k, cs[k]);
        k += 1;
    }
    p
}

/// Builds the token whose text is `src[i..e]`, after the blanks `ws` that start at `p`
fn make_token(
    cs: &Vec<char>,
    src: Ghost<Seq<char>>,
    p: Ghost<int>,
    i: usize,
    e: usize,
    ws: String,
    start: Position,
    kind: TokenKind,
) -> (r: (Token, Position))
    requires
        cs@ == src@,
        i <= e <= cs@.len(),
        utf8_len(src@) < usize::MAX,
        0 <= p@ <= i,
        ws@ == src@.subrange(p@, i as int),
        all_blank(ws@),
        at_position(start, src@, i as int),
        token_text_ok(kind, src@.subrange(i as int, e as int), src@.skip(e as int)),
    ensures
        token_here(src@, r.0, p@),
        r.0.raw@.len() == e - i,
        r.0.leading_whitespace@ == ws@,
        r.0.kind == kind,
        at_position(r.1, src@, e as int),
{
    let raw = string_of_range(cs, i, e);
    let end = advance_over(cs, src, i, e, start);
    let t = Token { kind, span: Span { start, end }, raw, leading_whitespace: ws };
    assert(src@.subrange(p@, e as int) =~= ws@ + raw@);
    (t, end)
}

/// Lexes the quoted string that starts at `i`
fn lex_quoted(cs: &Vec<char>, src: Ghost<Seq<char>>, i: usize) -> (r: Result<usize, ()>)
    requires
        cs@ == src@,
        i < cs@.len(),
        src@[i as int] == '"' || src@[i as int] == '\'',
    ensures
        r matches Ok(e) ==> i + 2 <= e <= cs@.len() && quoted_ok(
            src@.subrange(i as int, e as int),
            src@[i as int],
        ),
        r is Err ==> unterminated(src@.skip(i + 1), src@[i as int]),
{
    let c = cs[i];
    let n = cs.len();
    let mut j = i + 1;
    assert(src@.subrange(i + 1, i + 1) =~= Seq::<char>::empty());
    loop
        invariant
            n == cs@.len(),
            cs@ == src@,
            i < j <= n,
            src@[i as int] == c,
            quoted_body(src@.subrange(i + 1, j as int), c),
            unterminated(src@.skip(i + 1), c) == unterminated(src@.skip(j as int), c),
        decreases n - j,
    {
        if j == n {
            assert(src@.skip(j as int) =~= Seq::<char>::empty());
            return Err(());
        }
        let d = cs[j];
        if d == '\\' {
            if j + 1 < n {
                proof {
                    lemma_quoted_escape(src@, j as int, c);
                    lemma_body_push_escape(src@.subrange(i + 1, j as int), src@[j + 1], c);
                    assert(src@.subrange(i + 1, j + 2) =~= src@.subrange(i + 1, j as int).push(
                        '\\',
                    ).push(src@[j + 1]));
                }
                j += 2;
            } else {
                assert(src@.skip(j as int) =~= seq!['\\']);
                return Err(());
            }
        } else if d == c {
            let ghost raw = src@.subrange(i as int, j + 1);
            assert(raw.subrange(1, raw.len() - 1) =~= src@.subrange(i + 1, j as int));
            return Ok(j + 1);
        } else {
            proof {
                lemma_quoted_step(src@, j as int, c);
                lemma_body_push(src@.subrange(i + 1, j as int), d, c);
                assert(src@.subrange(i + 1, j + 1) =~= src@.subrange(i + 1, j as int).push(d));
            }
            j += 1;
        }
    }
}

/// Finds the end of the comment that starts at `i`: the end of its line,
/// without trailing blanks
fn lex_comment_end(cs: &Vec<char>, src: Ghost<Seq<char>>, i: usize) -> (e: usize)
    requires
        cs@ == src@,
        i < cs@.len(),
        src@[i as int] == '#',
    ensures
        i < e <= cs@.len(),
        no_newline(src@.subrange(i as int, e as int)),
        !is_blank(src@[e - 1]),
        blank_to_eol(src@.skip(e as int)),
{
    let n = cs.len();
    let mut j = i;
    while j < n && cs[j] != '\n'
        invariant
            n == cs@.len(),
            cs@ == src@,
            i <= j <= n,
            forall|m: int| i <= m < j ==> src@[m] != '\n',
        decreases n - j,
    {
        j += 1;
    }
    let mut e = j;
    while e > i + 1 && is_blank_char(cs[e - 1])
        invariant
            n == cs@.len(),
            cs@ == src@,
            i + 1 <= e <= j <= n,
            src@[i as int] == '#',
            forall|m: int| e <= m < j ==> is_blank(src@[m]),
        decreases e,
    {
        e -= 1;
    }
    proof {
        let r = src@.subrange(i as int, e as int);
        assert forall|m: int| 0 <= m < r.len() implies #[trigger] r[m] != '\n' by {
            assert(r[m] == src@[i + m]);
        }
        let rest = src@.skip(e as int);
        assert forall|m: int| 0 <= m < j - e implies is_blank(#[trigger] rest.take(j - e)[m]) by {
            assert(rest.take(j - e)[m] == src@[e + m]);
        }
        if j < n {
            assert(rest[j - e] == src@[j as int]);
        }
        lemma_blank_to_eol(rest, j - e);
    }
    e
}

/// Finds the end of the bare word that starts at `i`
fn lex_word_end(cs: &Vec<char>, src: Ghost<Seq<char>>, i: usize) -> (e: usize)
    requires
        cs@ == src@,
        i < cs@.len(),
        !is_delim(src@[i as int]),
    ensures
        i < e <= cs@.len(),
        no_delims(src@.subrange(i as int, e as int)),
        e == cs@.len() || is_delim(src@[e as int]),
{
    let n = cs.len();
    let mut j = i;
    while j < n && !is_delim_char(cs[j])
        invariant
            n == cs@.len(),
            cs@ == src@,
            i <= j <= n,
            forall|m: int| i <= m < j ==> !is_delim(#[trigger] src@[m]),
        decreases n - j,
    {
        j += 1;
    }
    let ghost r = src@.subrange(i as int, j as int);
    assert forall|m: int| 0 <= m < r.len() implies !is_delim(#[trigger] r[m]) by {
        assert(r[m] == src@[i + m]);
    }
    j
}

/// Lexes the token that starts at `i` (not a blank, not the end), after the
/// blanks `ws` that start at `p`
fn lex_one(
    cs: &Vec<char>,
    src: Ghost<Seq<char>>,
    p: Ghost<int>,
    i: usize,
    ws: String,
    start: Position,
) -> (r: Result<(Token, usize, Position), ()>)
    requires
        cs@ == src@,
        i < cs@.len(),
        !is_blank(src@[i as int]),
        utf8_len(src@) < usize::MAX,
        0 <= p@ <= i,
        ws@ == src@.subrange(p@, i as int),
        all_blank(ws@),
        at_position(start, src@, i as int),
    ensures
        r matches Ok((t, e, pos)) ==> {
            &&& token_here(src@, t, p@)
            &&& !(t.kind is Eof)
            &&& e == p@ + t.leading_whitespace@.len() + t.raw@.len()
            &&& i < e
            &&& at_position(pos, src@, e as int)
        },
        r is Err ==> (src@[i as int] == '"' || src@[i as int] == '\'') && unterminated(
            src@.skip(i + 1),
            src@[i as int],
        ),
{
    let c = cs[i];
    if c == '"' || c == '\'' {
        let e = lex_quoted(cs, src, i)?;
        let value = string_of_range(cs, i + 1, e - 1);
        let ghost r = src@.subrange(i as int, e as int);
        assert(r.subrange(1, r.len() - 1) =~= src@.subrange(i + 1, e - 1));
        let kind = if c == '"' {
            TokenKind::DoubleQuotedString(value)
        } else {
            TokenKind::SingleQuotedString(value)
        };
        let (t, pos) = make_token(cs, src, p, i, e, ws, start, kind);
        Ok((t, e, pos))
    } else if c == '#' {
        let e = lex_comment_end(cs, src, i);
        let text = string_of_range(cs, i, e);
        let (t, pos) = make_token(cs, src, p, i, e, ws, start, TokenKind::Comment(text));
        Ok((t, e, pos))
    } else if c == '\n' || c == ';' || c == '{' || c == '}' {
        let kind = if c == '\n' {
            TokenKind::Newline
        } else if c == ';' {
            TokenKind::Semicolon
        } else if c == '{' {
            TokenKind::OpenBrace
        } else {
            TokenKind::CloseBrace
        };
        assert(src@.subrange(i as int, i + 1) =~= seq![c]);
        assert(i + 1 <= cs.len());
        let (t, pos) = make_token(cs, src, p, i, i + 1, ws, start, kind);
        Ok((t, i + 1, pos))
    } else {
        let e = lex_word_end(cs, src, i);
        let ghost r = src@.subrange(i as int, e as int);
        assert(r[0] == c);
        if e < cs.len() {
            assert(src@.skip(e as int)[0] == src@[e as int]);
        }
        let kind = if c == '$' {
            assert(r.drop_first() =~= src@.subrange(i + 1, e as int));
            TokenKind::Variable(string_of_range(cs, i + 1, e))
        } else if is_ident_range(cs, i, e) {
            TokenKind::Ident(string_of_range(cs, i, e))
        } else {
            TokenKind::Argument(string_of_range(cs, i, e))
        };
        let (t, pos) = make_token(cs, src, p, i, e, ws, start, kind);
        Ok((t, e, pos))
    }
}

/// Splits `source` into tokens.
///
/// On success the tokens read the whole source (see [`lexed`]) and end with
/// [`TokenKind::Eof`]; the one failure is a quote that is never closed, which is
/// reported at the quote (see [`lex_fails`]).
pub fn tokenize(source: &str) -> (res: Result<Vec<Token>, ParseError>)
    requires
        utf8_len(source@) < usize::MAX,
    ensures
        res matches Ok(toks) ==> lexed(source@, toks@),
        res matches Err(e) ==> lex_fails(source@, e),
{
    let cs = chars_of(source);
    let ghost src = source@;
    let n = cs.len();
    let mut toks: Vec<Token> = Vec::new();
    let mut i: usize = 0;
    let mut pos = Position { line: 1, column: 1, offset: 0 };
    proof {
        assert(src.take(0) =~= Seq::<char>::empty());
        assert(tokens_text(toks@) =~= Seq::<char>::empty());
    }
    loop
        invariant
            n == cs@.len(),
            cs@ == src,
            src == source@,
            i <= n,
            utf8_len(src) < usize::MAX,
            tokens_text(toks@) == src.take(i as int),
            tokens_text(toks@).len() == i,
            lexed_prefix(src, toks@),
            at_position(pos, src, i as int),
        decreases n - i,
    {
        // Blanks before the token
        let ws_start = i;
        let mut ws = String::new();
        while i < n && is_blank_char(cs[i])
            invariant
                n == cs@.len(),
                cs@ == src,
                ws_start <= i <= n,
                utf8_len(src) < usize::MAX,
                ws@ == src.subrange(ws_start as int, i as int),
                all_blank(ws@),
                at_position(pos, src, i as int),
            decreases n - i,
        {
            let c = cs[i];
            push_char(&mut ws, c);
            pos = step_position(pos, Ghost(src), i, c);
            assert(src.subrange(ws_start as int, i + 1) =~= src.subrange(
                ws_start as int,
                i as int,
            ).push(c));
            i += 1;
        }
        let ghost before = toks@;
        if i == n {
            let t = Token {
                kind: TokenKind::Eof,
                span: Span { start: pos, end: pos },
                raw: String::new(),
                leading_whitespace: ws,
            };
            proof {
                lemma_push_token(src, before, t);
                assert(src.skip(i as int) =~= Seq::<char>::empty());
                assert(src.subrange(ws_start as int, i as int) =~= ws@ + t.raw@);
                assert(src.take(i as int) =~= src.take(ws_start as int) + ws@);
                assert(src.take(i as int) =~= src);
                assert(toks@.push(t).drop_last() =~= before);
            }
            toks.push(t);
            return Ok(toks);
        }
        match lex_one(&cs, Ghost(src), Ghost(ws_start as int), i, ws, pos) {
            Ok((t, e, p2)) => {
                proof {
                    lemma_push_token(src, before, t);
                    assert(src.take(e as int) =~= src.take(ws_start as int) + src.subrange(
                        ws_start as int,
                        e as int,
                    ));
                    assert(toks@.push(t)[before.len() as int] == t);
                }
                toks.push(t);
                proof {
                    assert(toks@.take(before.len() as int) =~= before);
                    assert(token_at_ok(src, toks@, before.len() as int));
                    assert forall|k: int| 0 <= k < toks@.len() implies token_at_ok(src, toks@, k) by {
                        if k < before.len() {
                        }
                    }
                    assert forall|k: int| 0 <= k < toks@.len() implies !(#[trigger] toks@[k].kind is Eof) by {
                        if k < before.len() {
                            assert(toks@[k] == before[k]);
                        }
                    }
                    assert(tokens_text(toks@) == src.take(e as int));
                }
                i = e;
                pos = p2;
            },
            Err(()) => {
                proof {
                    lemma_lex_fails(src, before, i as int, pos);
                }
                return Err(ParseError::UnterminatedString { position: pos });
            },
        }
    }
}

} // verus!
